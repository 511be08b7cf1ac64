//! The files that the log goes to: a live file and numbered backups, which together stay below a
//! cap. The oldest backup goes first.

use vstd::prelude::*;

use crate::text;

verus! {

/// The cap on all files together.
pub const MAX_TOTAL_BYTES: u64 = 10_485_760;

/// How many files are kept: the live one and its backups.
pub const KEEP_FILES: usize = 5;

/// The cap on one file: an even share of the cap on all.
pub const MAX_FILE_BYTES: u64 = 2_097_152;

/// The stem of the file names: the last part of the program's identifier.
pub fn log_stem(app_id: &str) -> (stem: String)
    ensures
        stem@ == text::after_last(app_id@, '.'),
{
    text::last_segment(app_id, '.')
}

/// One of the files.
#[derive(Clone, Copy, PartialEq, Eq, Structural, Debug)]
pub enum Slot {
    Live,
    Backup(usize),
}

/// The name of a file.
pub open spec fn name_of(stem: Seq<char>, slot: Slot) -> Seq<char> {
    match slot {
        Slot::Live => stem + ".log"@,
        Slot::Backup(index) => stem + "."@ + text::decimal(index as nat) + ".log"@,
    }
}

/// The names of the files: the live one has none but the stem, a backup also its number, so that
/// no two files share a name.
pub proof fn lemma_names_differ(stem: Seq<char>, a: Slot, b: Slot)
    requires
        name_of(stem, a) == name_of(stem, b),
    ensures
        a == b,
{
    reveal_strlit(".log");
    reveal_strlit(".");
    let x = name_of(stem, a);
    let n = stem.len() as int;
    match (a, b) {
        (Slot::Backup(i), Slot::Backup(j)) => {
            text::lemma_decimal_reads_back(i as u64);
            text::lemma_decimal_reads_back(j as u64);
            assert(x.subrange(n + 1, x.len() - 4) =~= text::decimal(i as nat));
            assert(x.subrange(n + 1, x.len() - 4) =~= text::decimal(j as nat));
        },
        (Slot::Live, Slot::Backup(i)) | (Slot::Backup(i), Slot::Live) => {
            text::lemma_decimal_reads_back(i as u64);
            assert(text::decimal(i as nat).len() > 0);
            assert(name_of(stem, Slot::Live).len() == n + 4);
            assert(name_of(stem, Slot::Backup(i)).len() == n + 5 + text::decimal(i as nat).len());
        },
        (Slot::Live, Slot::Live) => {},
    }
}

/// The name of a file.
pub fn file_name(stem: &str, slot: Slot) -> (name: String)
    ensures
        name@ == name_of(stem@, slot),
{
    let mut name: String = stem.to_string();
    match slot {
        Slot::Live => {
            name.append(".log");
        },
        Slot::Backup(index) => {
            name.append(".");
            text::append_decimal(&mut name, index as u64);
            name.append(".log");
        },
    }
    name
}

/// One action on the files.
#[derive(Clone, Copy, PartialEq, Eq, Structural, Debug)]
pub enum FileOp {
    /// Delete a file, if it is there.
    Remove(Slot),
    /// Give a file another name, if it is there.
    Rename { from: Slot, to: Slot },
    /// Open the live file, empty.
    Create,
}

/// The sizes of the files that are there.
#[verifier::ext_equal]
pub struct Folder {
    pub files: Map<Slot, nat>,
}

/// The files after an action that succeeds.
pub open spec fn done(op: FileOp, f: Folder) -> Folder {
    match op {
        FileOp::Remove(slot) => Folder { files: f.files.remove(slot) },
        FileOp::Rename { from, to } => if f.files.contains_key(from) {
            Folder { files: f.files.remove(from).insert(to, f.files[from]) }
        } else {
            f
        },
        FileOp::Create => Folder { files: f.files.insert(Slot::Live, 0) },
    }
}

/// The files after actions that succeed, in order.
pub open spec fn all_done(ops: Seq<FileOp>, f: Folder) -> Folder
    decreases ops.len(),
{
    if ops.len() == 0 {
        f
    } else {
        all_done(ops.drop_first(), done(ops[0], f))
    }
}

/// Moves backups 1 to `k` one place on, the last first.
pub open spec fn shifts(k: nat) -> Seq<FileOp>
    decreases k,
{
    if k == 0 {
        seq![]
    } else {
        seq![
            FileOp::Rename {
                from: Slot::Backup(k as usize),
                to: Slot::Backup((k + 1) as usize),
            },
        ] + shifts((k - 1) as nat)
    }
}

/// A rotation: the oldest backup is deleted, the others move one place on, the live file becomes
/// the first backup, and a new live file is opened.
pub open spec fn rotation(keep: usize) -> Seq<FileOp> {
    seq![FileOp::Remove(Slot::Backup((keep - 1) as usize))] + shifts(
        if keep < 2 {
            0
        } else {
            (keep - 2) as nat
        },
    ) + seq![FileOp::Rename { from: Slot::Live, to: Slot::Backup(1) }, FileOp::Create]
}

/// The actions of a rotation.
pub fn rotate(keep: usize) -> (ops: Vec<FileOp>)
    requires
        keep >= 1,
    ensures
        ops@ == rotation(keep),
{
    let mut ops: Vec<FileOp> = Vec::new();
    ops.push(FileOp::Remove(Slot::Backup(keep - 1)));
    let first: usize = if keep < 2 {
        0
    } else {
        keep - 2
    };
    let ghost head = seq![FileOp::Remove(Slot::Backup((keep - 1) as usize))];
    let ghost goal = head + shifts(first as nat);
    assert(ops@ =~= head);
    let mut index: usize = first;
    while index > 0
        invariant
            index <= first < usize::MAX,
            ops@ + shifts(index as nat) == goal,
        decreases index,
    {
        let op = FileOp::Rename { from: Slot::Backup(index), to: Slot::Backup(index + 1) };
        let ghost before = ops@;
        ops.push(op);
        proof {
            let rest = shifts((index - 1) as nat);
            assert(shifts(index as nat) == seq![op] + rest);
            assert(before + (seq![op] + rest) =~= ops@ + rest);
        }
        index = index - 1;
    }
    assert(ops@ + shifts(0) =~= ops@);
    ops.push(FileOp::Rename { from: Slot::Live, to: Slot::Backup(1) });
    ops.push(FileOp::Create);
    assert(ops@ =~= rotation(keep));
    ops
}

proof fn lemma_all_done_append(a: Seq<FileOp>, b: Seq<FileOp>, f: Folder)
    ensures
        all_done(a + b, f) == all_done(b, all_done(a, f)),
    decreases a.len(),
{
    if a.len() == 0 {
        assert(a + b =~= b);
    } else {
        assert((a + b).drop_first() =~= a.drop_first() + b);
        lemma_all_done_append(a.drop_first(), b, done(a[0], f));
    }
}

/// Where a file of the folder before a shift of the backups 1 to `k` comes from.
spec fn shifted(f: Folder, k: nat) -> Folder {
    Folder {
        files: Map::new(
            |s: Slot|
                match s {
                    Slot::Backup(i) => if i == 1 && k >= 1 {
                        false
                    } else if 2 <= i <= k + 1 {
                        f.files.contains_key(Slot::Backup((i - 1) as usize))
                    } else {
                        f.files.contains_key(s)
                    },
                    Slot::Live => f.files.contains_key(s),
                },
            |s: Slot|
                match s {
                    Slot::Backup(i) => if 2 <= i <= k + 1 {
                        f.files[Slot::Backup((i - 1) as usize)]
                    } else {
                        f.files[s]
                    },
                    Slot::Live => f.files[s],
                },
        ),
    }
}

proof fn lemma_shifts(f: Folder, k: nat)
    requires
        k + 1 <= usize::MAX,
        k >= 1 ==> !f.files.contains_key(Slot::Backup((k + 1) as usize)),
    ensures
        all_done(shifts(k), f) == shifted(f, k),
    decreases k,
{
    if k == 0 {
        assert(shifted(f, 0) =~= f);
    } else {
        let op = FileOp::Rename {
            from: Slot::Backup(k as usize),
            to: Slot::Backup((k + 1) as usize),
        };
        assert(shifts(k).drop_first() =~= shifts((k - 1) as nat));
        let g = done(op, f);
        lemma_shifts(g, (k - 1) as nat);
        assert(shifted(g, (k - 1) as nat).files =~= shifted(f, k).files);
    }
}

/// After a rotation the live file is empty, every kept backup is the file that was one place
/// before it, and files past the kept ones are as they were.
pub proof fn lemma_rotation_moves_on(f: Folder, keep: usize, slot: Slot)
    requires
        keep >= 2,
    ensures
        ({
            let after = all_done(rotation(keep), f);
            match slot {
                Slot::Live => after.files.contains_key(slot) && after.files[slot] == 0,
                Slot::Backup(i) => {
                    let before = if i == 1 {
                        Slot::Live
                    } else if 1 < i < keep {
                        Slot::Backup((i - 1) as usize)
                    } else {
                        slot
                    };
                    &&& after.files.contains_key(slot) <==> f.files.contains_key(before)
                    &&& f.files.contains_key(before) ==> after.files[slot] == f.files[before]
                },
            }
        }),
{
    let first = seq![FileOp::Remove(Slot::Backup((keep - 1) as usize))];
    let last = seq![FileOp::Rename { from: Slot::Live, to: Slot::Backup(1) }, FileOp::Create];
    let k = (keep - 2) as nat;
    let a = all_done(first, f);
    assert(first.drop_first() =~= seq![]);
    assert(a == done(first[0], f)) by {
        assert(all_done(first.drop_first(), done(first[0], f)) == done(first[0], f));
    }
    lemma_all_done_append(first + shifts(k), last, f);
    lemma_all_done_append(first, shifts(k), f);
    lemma_shifts(a, k);
    let b = all_done(shifts(k), a);
    let c = done(last[0], b);
    assert(last.drop_first() =~= seq![FileOp::Create]);
    assert(last.drop_first().drop_first() =~= seq![]);
    assert(all_done(last, b) == done(FileOp::Create, c)) by {
        assert(all_done(last, b) == all_done(last.drop_first(), c));
        assert(all_done(last.drop_first(), c) == all_done(
            last.drop_first().drop_first(),
            done(FileOp::Create, c),
        ));
    }
}

/// The size of a file; 0 where it is missing.
pub open spec fn size(f: Folder, slot: Slot) -> nat {
    if f.files.contains_key(slot) {
        f.files[slot]
    } else {
        0
    }
}

/// The sizes of the backups 1 to `n` together.
pub open spec fn backups_size(f: Folder, n: nat) -> nat
    decreases n,
{
    if n == 0 {
        0
    } else {
        size(f, Slot::Backup(n as usize)) + backups_size(f, (n - 1) as nat)
    }
}

/// The size of the kept files together.
pub open spec fn total_size(f: Folder, keep: usize) -> nat {
    size(f, Slot::Live) + backups_size(
        f,
        if keep == 0 {
            0
        } else {
            (keep - 1) as nat
        },
    )
}

/// The kept files are no larger than `max` each.
pub open spec fn each_within(f: Folder, keep: usize, max: u64) -> bool {
    &&& size(f, Slot::Live) <= max
    &&& forall|i: usize| 1 <= i < keep ==> #[trigger] size(f, Slot::Backup(i)) <= max
}

proof fn lemma_backups_within(f: Folder, n: nat, max: u64)
    requires
        n < usize::MAX,
        forall|i: usize| 1 <= i <= n ==> #[trigger] size(f, Slot::Backup(i)) <= max,
    ensures
        backups_size(f, n) <= n * max,
    decreases n,
{
    if n > 0 {
        lemma_backups_within(f, (n - 1) as nat, max);
        assert(size(f, Slot::Backup(n as usize)) <= max);
        assert(n * max == (n - 1) * max + max) by (nonlinear_arith);
    }
}

proof fn lemma_backups_resized(f: Folder, n: nat, slot: Slot, len: nat)
    requires
        n < usize::MAX,
    ensures
        ({
            let g = Folder { files: f.files.insert(slot, len) };
            match slot {
                Slot::Backup(i) if 1 <= i <= n => backups_size(g, n) + size(f, slot)
                    == backups_size(f, n) + len,
                _ => backups_size(g, n) == backups_size(f, n),
            }
        }),
    decreases n,
{
    if n > 0 {
        lemma_backups_resized(f, (n - 1) as nat, slot, len);
    }
}

/// The total counts the live file and every kept backup once, and nothing else: where one of them
/// gets another size, the total changes by as much.
pub proof fn lemma_totals_in_full(f: Folder, keep: usize, slot: Slot, len: nat)
    ensures
        ({
            let g = Folder { files: f.files.insert(slot, len) };
            match slot {
                Slot::Live => total_size(g, keep) + size(f, slot) == total_size(f, keep) + len,
                Slot::Backup(i) => if 1 <= i < keep {
                    total_size(g, keep) + size(f, slot) == total_size(f, keep) + len
                } else {
                    total_size(g, keep) == total_size(f, keep)
                },
            }
        }),
        total_size((Folder { files: Map::empty() }), keep) == 0,
{
    let n = if keep == 0 {
        0
    } else {
        (keep - 1) as nat
    };
    lemma_backups_resized(f, n, slot, len);
    lemma_empty_backups(n);
}

proof fn lemma_empty_backups(n: nat)
    ensures
        backups_size((Folder { files: Map::empty() }), n) == 0,
    decreases n,
{
    if n > 0 {
        lemma_empty_backups((n - 1) as nat);
    }
}

/// Files that are within their caps are together within theirs.
pub proof fn lemma_total_within(f: Folder, keep: usize, max: u64)
    requires
        keep >= 1,
        each_within(f, keep, max),
    ensures
        total_size(f, keep) <= keep * max,
{
    lemma_backups_within(f, (keep - 1) as nat, max);
    assert(keep * max == (keep - 1) * max + max) by (nonlinear_arith);
}

/// After a rotation the live file is empty.
proof fn lemma_rotation_empties(f: Folder, keep: usize)
    ensures
        size(all_done(rotation(keep), f), Slot::Live) == 0,
{
    let last = seq![FileOp::Create];
    let rest = rotation(keep).drop_last();
    assert(rotation(keep) =~= rest + last);
    lemma_all_done_append(rest, last, f);
    let g = all_done(rest, f);
    assert(last.drop_first() =~= seq![]);
    assert(all_done(last, g) == all_done(last.drop_first(), done(FileOp::Create, g)));
}

/// A rotation keeps every file within its cap.
pub proof fn lemma_rotation_within(f: Folder, keep: usize, max: u64)
    requires
        keep >= 1,
        each_within(f, keep, max),
    ensures
        each_within(all_done(rotation(keep), f), keep, max),
{
    let after = all_done(rotation(keep), f);
    lemma_rotation_empties(f, keep);
    assert forall|i: usize| 1 <= i < keep implies #[trigger] size(after, Slot::Backup(i))
        <= max by {
        lemma_rotation_moves_on(f, keep, Slot::Backup(i));
        if i > 1 {
            assert(size(f, Slot::Backup((i - 1) as usize)) <= max);
        }
    }
}

/// How a write begins.
#[derive(Clone, Copy, PartialEq, Eq, Structural, Debug)]
pub struct WritePlan {
    /// The files are rotated first.
    pub rotate: bool,
    /// So many bytes go into the live file. The rest is another write.
    pub len: usize,
}

/// The live file: how long it is, whether it is open, and the caps.
pub struct RotatingFile {
    pub max_file_bytes: u64,
    pub keep: usize,
    pub current_len: u64,
    pub is_open: bool,
}

impl RotatingFile {
    /// The live file as it was opened.
    pub fn open(current_len: u64) -> (r: RotatingFile)
        ensures
            r == (RotatingFile {
                max_file_bytes: MAX_FILE_BYTES,
                keep: KEEP_FILES,
                current_len,
                is_open: true,
            }),
    {
        RotatingFile {
            max_file_bytes: MAX_FILE_BYTES,
            keep: KEEP_FILES,
            current_len,
            is_open: true,
        }
    }

    /// How many of `len` bytes go into the live file. A record that is longer than a file may be
    /// spans several.
    pub fn accepts(&self, len: usize) -> (n: usize)
        ensures
            n == accepted(*self, len as nat),
    {
        if len as u128 <= self.max_file_bytes as u128 {
            len
        } else {
            self.max_file_bytes as usize
        }
    }

    /// Whether the files are rotated before `len` more bytes are written: they would take the
    /// live file past its cap.
    pub fn must_rotate(&self, len: usize) -> (r: bool)
        ensures
            r == is_due(*self, len as nat),
    {
        self.current_len as u128 + len as u128 > self.max_file_bytes as u128
    }

    /// How a write of `len` bytes begins: whether the files are rotated first, and how many bytes
    /// then go into the live file.
    pub fn write(&self, len: usize) -> (plan: WritePlan)
        ensures
            plan.len == accepted(*self, len as nat),
            plan.rotate == is_due(*self, plan.len as nat),
    {
        let n: usize = self.accepts(len);
        WritePlan { rotate: self.must_rotate(n), len: n }
    }

    /// The files have been rotated. If the new live file could not be opened there is none.
    pub fn on_rotated(&mut self, opened: bool)
        ensures
            *final(self) == (RotatingFile {
                is_open: opened,
                current_len: if opened {
                    0
                } else {
                    old(self).current_len
                },
                ..*old(self)
            }),
    {
        self.is_open = opened;
        if opened {
            self.current_len = 0;
        }
    }

    /// Bytes have been written to the live file.
    pub fn on_written(&mut self, len: usize)
        requires
            old(self).current_len + len <= u64::MAX,
        ensures
            *final(self) == (RotatingFile {
                current_len: (old(self).current_len + len) as u64,
                ..*old(self)
            }),
    {
        self.current_len = self.current_len + len as u64;
    }

    /// The live file has been emptied, if that went well.
    pub fn on_truncated(&mut self, emptied: bool)
        ensures
            *final(self) == (RotatingFile {
                current_len: if emptied {
                    0
                } else {
                    old(self).current_len
                },
                ..*old(self)
            }),
    {
        if emptied {
            self.current_len = 0;
        }
    }

    /// The size of the files together.
    pub fn total_bytes(&self, backups: &Vec<u64>) -> (total: u128)
        ensures
            total == self.current_len + sum(backups@),
    {
        let mut total: u128 = self.current_len as u128;
        let mut i: usize = 0;
        assert(backups@.take(0) =~= seq![]);
        while i < backups.len()
            invariant
                i <= backups@.len(),
                total == self.current_len + sum(backups@.take(i as int)),
                total <= (i + 1) * 0xffff_ffff_ffff_ffff,
            decreases backups@.len() - i,
        {
            assert(backups@.take(i + 1).drop_last() =~= backups@.take(i as int));
            total = total + backups[i] as u128;
            i = i + 1;
        }
        assert(backups@.take(backups@.len() as int) =~= backups@);
        total
    }
}

/// The sum of the numbers.
pub open spec fn sum(numbers: Seq<u64>) -> nat
    decreases numbers.len(),
{
    if numbers.len() == 0 {
        0
    } else {
        sum(numbers.drop_last()) + numbers.last() as nat
    }
}

/// How many bytes of a write go into the live file: all of them, up to the cap on one file. What
/// is left is another write.
pub open spec fn accepted(file: RotatingFile, len: nat) -> nat {
    if len <= file.max_file_bytes {
        len
    } else {
        file.max_file_bytes as nat
    }
}

/// The files are rotated before `n` more bytes are written.
pub open spec fn is_due(file: RotatingFile, n: nat) -> bool {
    file.current_len + n > file.max_file_bytes
}

/// The files after the accepted bytes of a write, with a rotation before them where one is due.
pub open spec fn after_write(f: Folder, file: RotatingFile, len: nat) -> Folder {
    let n = accepted(file, len);
    let g = if is_due(file, n) {
        all_done(rotation(file.keep), f)
    } else {
        f
    };
    Folder { files: g.files.insert(Slot::Live, size(g, Slot::Live) + n) }
}

/// The live file after the accepted bytes of a write.
pub open spec fn file_after_write(file: RotatingFile, len: nat) -> RotatingFile {
    let n = accepted(file, len);
    RotatingFile {
        is_open: file.is_open || is_due(file, n),
        current_len: if is_due(file, n) {
            n as u64
        } else {
            (file.current_len + n) as u64
        },
        ..file
    }
}

/// The files after a record of `len` bytes, written piece by piece.
pub open spec fn after_record(f: Folder, file: RotatingFile, len: nat) -> Folder
    decreases len,
{
    if len == 0 || file.max_file_bytes == 0 {
        f
    } else {
        after_record(
            after_write(f, file, len),
            file_after_write(file, len),
            (len - accepted(file, len)) as nat,
        )
    }
}

/// The folder holds the live file as it is known, and every kept file is within its cap.
pub open spec fn in_order(f: Folder, file: RotatingFile) -> bool {
    &&& file.keep >= 1
    &&& size(f, Slot::Live) == file.current_len
    &&& each_within(f, file.keep, file.max_file_bytes)
}

/// A write that fits into a file is accepted whole; of a longer one as much as a file holds. The
/// files are rotated exactly if what is accepted would take the live file past its cap.
pub proof fn lemma_writes_in_full(file: RotatingFile, len: nat)
    ensures
        len <= file.max_file_bytes ==> accepted(file, len) == len,
        len > file.max_file_bytes ==> accepted(file, len) == file.max_file_bytes,
        len > 0 && file.max_file_bytes > 0 ==> accepted(file, len) > 0,
        is_due(file, len) <==> file.current_len + len > file.max_file_bytes,
{
}

/// A write that does not need a rotation goes behind what the live file holds, and no other file
/// is touched.
pub proof fn lemma_short_writes_append(f: Folder, file: RotatingFile, len: nat)
    requires
        file.current_len + len <= file.max_file_bytes,
    ensures
        size(after_write(f, file, len), Slot::Live) == size(f, Slot::Live) + len,
        forall|i: usize| #[trigger]
            size(after_write(f, file, len), Slot::Backup(i)) == size(f, Slot::Backup(i)),
{
}

/// A write of any length keeps every file within its cap, and all of them within theirs.
pub proof fn lemma_write_within(f: Folder, file: RotatingFile, len: nat)
    requires
        in_order(f, file),
    ensures
        in_order(after_write(f, file, len), file_after_write(file, len)),
        total_size(after_write(f, file, len), file.keep) <= file.keep * file.max_file_bytes,
{
    let n = accepted(file, len);
    let g = if is_due(file, n) {
        all_done(rotation(file.keep), f)
    } else {
        f
    };
    if is_due(file, n) {
        lemma_rotation_within(f, file.keep, file.max_file_bytes);
        lemma_rotation_empties(f, file.keep);
    }
    let after = after_write(f, file, len);
    assert forall|i: usize| 1 <= i < file.keep implies #[trigger] size(after, Slot::Backup(i))
        <= file.max_file_bytes by {
        assert(size(after, Slot::Backup(i)) == size(g, Slot::Backup(i)));
    }
    lemma_total_within(after, file.keep, file.max_file_bytes);
}

/// A record of any length keeps the files together within their cap.
pub proof fn lemma_record_within(f: Folder, file: RotatingFile, len: nat)
    requires
        in_order(f, file),
    ensures
        total_size(after_record(f, file, len), file.keep) <= file.keep * file.max_file_bytes,
    decreases len,
{
    if len == 0 || file.max_file_bytes == 0 {
        lemma_total_within(f, file.keep, file.max_file_bytes);
    } else {
        lemma_write_within(f, file, len);
        lemma_record_within(
            after_write(f, file, len),
            file_after_write(file, len),
            (len - accepted(file, len)) as nat,
        );
    }
}

/// What to do next to bring the files below a cap.
#[derive(Clone, Copy, PartialEq, Eq, Structural, Debug)]
pub enum CapStep {
    /// They are below it.
    Done,
    /// Delete this backup. If that works, start over; if not, go on below it.
    Remove(usize),
    /// No backup could be deleted: empty the live file, and stop.
    Truncate,
}

/// What to do next to bring files of `total` bytes below `cap`. Backups from `tried` on could not
/// be deleted; a start has `keep` there.
pub open spec fn next_cap_step(total: nat, cap: u64, tried: usize) -> CapStep {
    if total <= cap {
        CapStep::Done
    } else if tried > 1 {
        CapStep::Remove((tried - 1) as usize)
    } else {
        CapStep::Truncate
    }
}

/// What to do next to bring files of `total` bytes below `cap`.
pub fn cap_step(total: u128, cap: u64, tried: usize) -> (step: CapStep)
    ensures
        step == next_cap_step(total as nat, cap, tried),
{
    if total <= cap as u128 {
        CapStep::Done
    } else if tried > 1 {
        CapStep::Remove(tried - 1)
    } else {
        CapStep::Truncate
    }
}

/// From which backup on deleting does not help, once backup `index` has been tried: from the end
/// again where it was deleted, else from itself.
pub open spec fn tried_after(keep: usize, index: usize, removed: bool) -> usize {
    if removed {
        keep
    } else {
        index
    }
}

/// Where to go on once backup `index` has been tried, for the next [`cap_step`].
pub fn tried_next(keep: usize, index: usize, removed: bool) -> (tried: usize)
    ensures
        tried == tried_after(keep, index, removed),
{
    if removed {
        keep
    } else {
        index
    }
}

/// The number of backups below `n` that are there.
pub open spec fn count(f: Folder, n: nat) -> nat
    decreases n,
{
    if n == 0 {
        0
    } else {
        count(f, (n - 1) as nat) + (if f.files.contains_key(Slot::Backup((n - 1) as usize)) {
            1nat
        } else {
            0
        })
    }
}

/// Deleting a backup that is there leaves one fewer.
pub proof fn lemma_count_remove(f: Folder, n: nat, i: usize)
    requires
        n <= usize::MAX,
        f.files.contains_key(Slot::Backup(i)),
    ensures
        count(Folder { files: f.files.remove(Slot::Backup(i)) }, n) == count(f, n) - (if i < n {
            1int
        } else {
            0
        }),
    decreases n,
{
    if n > 0 {
        lemma_count_remove(f, (n - 1) as nat, i);
    }
}

/// The files after the steps have brought them below a cap, if deleting works for every backup
/// that is there and for no other.
pub open spec fn enforced(f: Folder, keep: usize, cap: u64, tried: usize) -> Folder
    decreases count(f, keep as nat), tried,
{
    proof {
        if tried <= keep && tried > 1 && f.files.contains_key(Slot::Backup((tried - 1) as usize)) {
            lemma_count_remove(f, keep as nat, (tried - 1) as usize);
        }
    }
    if tried > keep {
        f
    } else {
        match next_cap_step(total_size(f, keep), cap, tried) {
            CapStep::Done => f,
            CapStep::Remove(i) => if f.files.contains_key(Slot::Backup(i)) {
                enforced(
                    Folder { files: f.files.remove(Slot::Backup(i)) },
                    keep,
                    cap,
                    tried_after(keep, i, true),
                )
            } else {
                enforced(f, keep, cap, tried_after(keep, i, false))
            },
            CapStep::Truncate => Folder { files: f.files.insert(Slot::Live, 0) },
        }
    }
}

proof fn lemma_no_backups(f: Folder, n: nat)
    requires
        n < usize::MAX,
        forall|i: usize| 1 <= i <= n ==> !#[trigger] f.files.contains_key(Slot::Backup(i)),
    ensures
        backups_size(f, n) == 0,
    decreases n,
{
    if n > 0 {
        lemma_no_backups(f, (n - 1) as nat);
        assert(!f.files.contains_key(Slot::Backup(n as usize)));
    }
}

proof fn lemma_enforced_from(f: Folder, keep: usize, cap: u64, tried: usize)
    requires
        1 <= tried <= keep,
        forall|i: usize| tried <= i < keep ==> !#[trigger] f.files.contains_key(Slot::Backup(i)),
    ensures
        total_size(enforced(f, keep, cap, tried), keep) <= cap,
    decreases count(f, keep as nat), tried,
{
    match next_cap_step(total_size(f, keep), cap, tried) {
        CapStep::Done => {},
        CapStep::Remove(i) => {
            if f.files.contains_key(Slot::Backup(i)) {
                lemma_count_remove(f, keep as nat, i);
                lemma_enforced_from(
                    Folder { files: f.files.remove(Slot::Backup(i)) },
                    keep,
                    cap,
                    keep,
                );
            } else {
                lemma_enforced_from(f, keep, cap, i);
            }
        },
        CapStep::Truncate => {
            let after = Folder { files: f.files.insert(Slot::Live, 0) };
            lemma_no_backups(after, (keep - 1) as nat);
        },
    }
}

/// Files that are within the cap are left alone.
pub proof fn lemma_nothing_is_lost_below_the_cap(f: Folder, keep: usize, cap: u64)
    requires
        total_size(f, keep) <= cap,
    ensures
        enforced(f, keep, cap, keep) == f,
{
}

/// The live file is emptied only once no backup is left to delete.
pub proof fn lemma_steps_in_full(total: nat, cap: u64, tried: usize)
    ensures
        next_cap_step(total, cap, tried) is Done <==> total <= cap,
        next_cap_step(total, cap, tried) is Truncate <==> total > cap && tried <= 1,
        next_cap_step(total, cap, tried) matches CapStep::Remove(i) ==> i == tried - 1 && i >= 1,
{
}

/// The steps bring the files below the cap.
pub proof fn lemma_cap_holds(f: Folder, keep: usize, cap: u64)
    requires
        keep >= 1,
    ensures
        total_size(enforced(f, keep, cap, keep), keep) <= cap,
{
    lemma_enforced_from(f, keep, cap, keep);
}

proof fn lemma_oldest_first_from(f: Folder, keep: usize, cap: u64, tried: usize, i: usize, j: usize)
    requires
        1 <= tried <= keep,
        1 <= i < j < keep,
        f.files.contains_key(Slot::Backup(i)),
        f.files.contains_key(Slot::Backup(j)),
        forall|k: usize| tried <= k < keep ==> !#[trigger] f.files.contains_key(Slot::Backup(k)),
        enforced(f, keep, cap, tried).files.contains_key(Slot::Backup(j)),
    ensures
        enforced(f, keep, cap, tried).files.contains_key(Slot::Backup(i)),
    decreases count(f, keep as nat), tried,
{
    match next_cap_step(total_size(f, keep), cap, tried) {
        CapStep::Done => {},
        CapStep::Remove(k) => {
            if f.files.contains_key(Slot::Backup(k)) {
                lemma_count_remove(f, keep as nat, k);
                let g = Folder { files: f.files.remove(Slot::Backup(k)) };
                if k == j {
                    lemma_only_shrinks(g, keep, cap, keep, j);
                } else {
                    assert(k != i) by {
                        if k == i {
                            assert(!f.files.contains_key(Slot::Backup(j)));
                        }
                    }
                    lemma_oldest_first_from(g, keep, cap, keep, i, j);
                }
            } else {
                lemma_oldest_first_from(f, keep, cap, k, i, j);
            }
        },
        CapStep::Truncate => {},
    }
}

proof fn lemma_only_shrinks(f: Folder, keep: usize, cap: u64, tried: usize, j: usize)
    requires
        !f.files.contains_key(Slot::Backup(j)),
    ensures
        !enforced(f, keep, cap, tried).files.contains_key(Slot::Backup(j)),
    decreases count(f, keep as nat), tried,
{
    if tried <= keep {
        match next_cap_step(total_size(f, keep), cap, tried) {
            CapStep::Done => {},
            CapStep::Remove(k) => {
                if f.files.contains_key(Slot::Backup(k)) {
                    lemma_count_remove(f, keep as nat, k);
                    lemma_only_shrinks(
                        Folder { files: f.files.remove(Slot::Backup(k)) },
                        keep,
                        cap,
                        keep,
                        j,
                    );
                } else {
                    lemma_only_shrinks(f, keep, cap, k, j);
                }
            },
            CapStep::Truncate => {},
        }
    }
}

/// The oldest backups go first: where a backup stays, every newer one that was there stays too.
pub proof fn lemma_oldest_first(f: Folder, keep: usize, cap: u64, i: usize, j: usize)
    requires
        1 <= i < j < keep,
        f.files.contains_key(Slot::Backup(i)),
        f.files.contains_key(Slot::Backup(j)),
        enforced(f, keep, cap, keep).files.contains_key(Slot::Backup(j)),
    ensures
        enforced(f, keep, cap, keep).files.contains_key(Slot::Backup(i)),
{
    lemma_oldest_first_from(f, keep, cap, keep, i, j);
}

} // verus!
