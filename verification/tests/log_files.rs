use siphon::rotation::{
    cap_step, file_name, log_stem, rotate, tried_next, CapStep, FileOp, RotatingFile, Slot,
    KEEP_FILES, MAX_FILE_BYTES, MAX_TOTAL_BYTES,
};

/// Files by name, with their sizes.
struct Disk {
    files: Vec<(String, u64)>,
}

impl Disk {
    fn name(slot: Slot) -> String {
        file_name("siphon", slot)
    }

    fn size(&self, slot: Slot) -> Option<u64> {
        let name = Self::name(slot);
        self.files.iter().find(|(file, _)| *file == name).map(|(_, size)| *size)
    }

    fn remove(&mut self, slot: Slot) -> bool {
        let name = Self::name(slot);
        let before = self.files.len();
        self.files.retain(|(file, _)| *file != name);
        self.files.len() < before
    }

    fn put(&mut self, slot: Slot, size: u64) {
        self.remove(slot);
        self.files.push((Self::name(slot), size));
    }

    fn perform(&mut self, op: FileOp) {
        match op {
            FileOp::Remove(slot) => {
                self.remove(slot);
            }
            FileOp::Rename { from, to } => {
                if let Some(size) = self.size(from) {
                    self.remove(from);
                    self.put(to, size);
                }
            }
            FileOp::Create => self.put(Slot::Live, 0),
        }
    }

    fn write(&mut self, file: &mut RotatingFile, len: usize) {
        let mut left = len;
        while left > 0 {
            let plan = file.write(left);
            let n = plan.len;
            if plan.rotate {
                for op in rotate(file.keep) {
                    self.perform(op);
                }
                file.on_rotated(true);
            }
            file.on_written(n);
            self.put(Slot::Live, file.current_len);
            left -= n;
        }
    }

    fn backups(&self, file: &RotatingFile) -> Vec<u64> {
        (1..file.keep)
            .map(|index| self.size(Slot::Backup(index)).unwrap_or(0))
            .collect()
    }

    fn enforce(&mut self, file: &mut RotatingFile, cap: u64) {
        let mut tried = file.keep;
        loop {
            match cap_step(file.total_bytes(&self.backups(file)), cap, tried) {
                CapStep::Done => return,
                CapStep::Remove(index) => {
                    let removed = self.remove(Slot::Backup(index));
                    tried = tried_next(file.keep, index, removed);
                }
                CapStep::Truncate => {
                    self.put(Slot::Live, 0);
                    file.on_truncated(true);
                    return;
                }
            }
        }
    }
}

fn open_with(keep: usize, max_file_bytes: u64) -> RotatingFile {
    let mut file = RotatingFile::open(0);
    file.keep = keep;
    file.max_file_bytes = max_file_bytes;
    file
}

#[test]
fn writes_rotate_and_drop_oldest_backup() {
    let mut disk = Disk { files: Vec::new() };
    let mut file = open_with(3, 10);
    disk.put(Slot::Live, 0);
    for _ in 0..10 {
        disk.write(&mut file, b"0123456789".len());
    }
    let names: Vec<&str> = disk.files.iter().map(|(name, _)| name.as_str()).collect();
    assert!(names.contains(&"siphon.log"));
    assert!(names.contains(&"siphon.1.log"));
    assert!(names.contains(&"siphon.2.log"));
    assert!(!names.contains(&"siphon.3.log"));
    let total: u64 = disk.files.iter().map(|(_, size)| *size).sum();
    assert!(total <= 3 * 10);
}

#[test]
fn a_long_record_spans_files_and_stays_below_the_cap() {
    let mut disk = Disk { files: Vec::new() };
    let mut file = open_with(3, 10);
    disk.put(Slot::Live, 0);
    assert_eq!(file.accepts(9), 9);
    assert_eq!(file.accepts(10), 10);
    assert_eq!(file.accepts(11), 10);
    assert!(!file.write(10).rotate);
    assert_eq!(file.write(11).len, 10);
    assert_eq!(tried_next(5, 3, true), 5);
    assert_eq!(tried_next(5, 3, false), 3);
    disk.write(&mut file, 4);
    disk.write(&mut file, 25);
    assert_eq!(disk.size(Slot::Live), Some(5));
    assert_eq!(disk.size(Slot::Backup(1)), Some(10));
    assert_eq!(disk.size(Slot::Backup(2)), Some(10));
    disk.write(&mut file, 1000);
    let total: u64 = disk.files.iter().map(|(_, size)| *size).sum();
    assert!(total <= 3 * 10);
}

#[test]
fn enforce_cap_drops_oldest_first() {
    let mut disk = Disk { files: Vec::new() };
    let mut file = open_with(4, 1_000_000);
    disk.put(Slot::Live, 40);
    disk.put(Slot::Backup(1), 40);
    disk.put(Slot::Backup(2), 40);
    disk.put(Slot::Backup(3), 40);
    file.current_len = 40;
    disk.enforce(&mut file, 100);
    assert!(file.total_bytes(&disk.backups(&file)) <= 100);
    assert!(disk.size(Slot::Backup(3)).is_none());
    assert_eq!(disk.size(Slot::Backup(1)), Some(40));
}

#[test]
fn enforce_cap_truncates_oversized_live_file() {
    let mut disk = Disk { files: Vec::new() };
    let mut file = open_with(2, 1_000_000);
    disk.put(Slot::Live, 50);
    file.current_len = 50;
    disk.enforce(&mut file, 10);
    assert_eq!(file.current_len, 0);
    assert_eq!(disk.size(Slot::Live), Some(0));
}

#[test]
fn a_rotation_moves_every_file_one_place_on() {
    let mut disk = Disk { files: Vec::new() };
    disk.put(Slot::Live, 1);
    disk.put(Slot::Backup(1), 2);
    disk.put(Slot::Backup(3), 4);
    disk.put(Slot::Backup(4), 5);
    for op in rotate(5) {
        disk.perform(op);
    }
    assert_eq!(disk.size(Slot::Live), Some(0));
    assert_eq!(disk.size(Slot::Backup(1)), Some(1));
    assert_eq!(disk.size(Slot::Backup(2)), Some(2));
    assert_eq!(disk.size(Slot::Backup(3)), None);
    assert_eq!(disk.size(Slot::Backup(4)), Some(4));
    assert_eq!(disk.size(Slot::Backup(5)), None);
}

#[test]
fn a_file_that_cannot_be_opened_is_gone() {
    let mut file = RotatingFile::open(7);
    assert!(file.is_open);
    assert_eq!(file.keep, KEEP_FILES);
    assert_eq!(file.max_file_bytes, MAX_FILE_BYTES);
    assert_eq!(MAX_FILE_BYTES * KEEP_FILES as u64, MAX_TOTAL_BYTES);
    file.on_rotated(false);
    assert!(!file.is_open);
    assert_eq!(file.current_len, 7);
    assert!(!file.must_rotate(MAX_FILE_BYTES as usize - 7));
    assert!(file.must_rotate(MAX_FILE_BYTES as usize - 6));
    file.on_truncated(false);
    assert_eq!(file.current_len, 7);
}

#[test]
fn names_of_the_files() {
    assert_eq!(log_stem("com.iken.siphon"), "siphon");
    assert_eq!(log_stem("siphon"), "siphon");
    assert_eq!(file_name("siphon", Slot::Live), "siphon.log");
    assert_eq!(file_name("siphon", Slot::Backup(12)), "siphon.12.log");
}
