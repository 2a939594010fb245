use std::io::{Error as IoError, Read, Seek, SeekFrom, Write};
use std::sync::atomic::{AtomicBool, AtomicUsize, Ordering};
use std::sync::{Arc, Mutex};

use canoe_storage::directory::has_file_types;
use canoe_storage::engine::{Call, FatItem, InodeFacts, Kind, Layout, Reply};
use canoe_storage::guard::{Cursor, Refusal, Whence};
use canoe_storage::journal;
use canoe_storage::journal::{Journal, Volume};
use canoe_storage::lifecycle::Summary;
use canoe_storage::mutate::MutateStep;
use canoe_storage::probe::ProbeRun;
use canoe_storage::session::{Entry, Session, Step};

use fs_ext4::block_io::BlockDevice;

struct Memory {
    bytes: Mutex<Vec<u8>>,
    writes: AtomicUsize,
    fail: AtomicBool,
}

impl BlockDevice for Memory {
    fn size_bytes(&self) -> u64 {
        self.bytes.lock().unwrap().len() as u64
    }
    fn is_writable(&self) -> bool {
        true
    }
    fn read_at(&self, offset: u64, out: &mut [u8]) -> fs_ext4::Result<()> {
        out.copy_from_slice(
            &self.bytes.lock().unwrap()[offset as usize..offset as usize + out.len()],
        );
        Ok(())
    }
    fn write_at(&self, offset: u64, bytes: &[u8]) -> fs_ext4::Result<()> {
        self.writes.fetch_add(1, Ordering::Relaxed);
        if self.fail.load(Ordering::Relaxed) {
            return Err(IoError::other("injected write failure").into());
        }
        self.bytes.lock().unwrap()[offset as usize..offset as usize + bytes.len()]
            .copy_from_slice(bytes);
        Ok(())
    }
    fn flush(&self) -> fs_ext4::Result<()> {
        if self.fail.load(Ordering::Relaxed) {
            Err(IoError::other("injected flush failure").into())
        } else {
            Ok(())
        }
    }
}

/// The device as an engine sees it: guarded by the session.
struct Guarded {
    device: Arc<dyn BlockDevice>,
    core: Arc<Mutex<Session>>,
}

fn refused(r: Refusal) -> fs_ext4::Error {
    match r {
        Refusal::Retired => IoError::other("filesystem device retired").into(),
        Refusal::OutOfBounds => fs_ext4::Error::OutOfBounds,
        Refusal::ReadOnly => fs_ext4::Error::ReadOnly,
    }
}

impl BlockDevice for Guarded {
    fn size_bytes(&self) -> u64 {
        self.core.lock().unwrap().device_bytes()
    }
    fn is_writable(&self) -> bool {
        self.core.lock().unwrap().is_writable()
    }
    fn read_at(&self, offset: u64, out: &mut [u8]) -> fs_ext4::Result<()> {
        let mut core = self.core.lock().unwrap();
        core.admit_read(offset, out.len()).map_err(refused)?;
        core.complete(self.device.read_at(offset, out))
    }
    fn write_at(&self, offset: u64, data: &[u8]) -> fs_ext4::Result<()> {
        let mut core = self.core.lock().unwrap();
        core.admit_write(offset, data.len()).map_err(refused)?;
        core.complete(self.device.write_at(offset, data))
    }
    fn flush(&self) -> fs_ext4::Result<()> {
        let mut core = self.core.lock().unwrap();
        core.admit_read(0, 0).map_err(refused)?;
        core.complete(self.device.flush())
    }
}

/// The read-only view that an inspection goes through.
struct ReadOnly(Arc<dyn BlockDevice>);

impl BlockDevice for ReadOnly {
    fn read_at(&self, offset: u64, bytes: &mut [u8]) -> fs_ext4::Result<()> {
        self.0.read_at(offset, bytes)
    }
    fn size_bytes(&self) -> u64 {
        self.0.size_bytes()
    }
}

struct Io {
    device: Arc<dyn BlockDevice>,
    cursor: Cursor,
}

fn io_error(error: fs_ext4::Error) -> IoError {
    IoError::other(error.to_string())
}

impl Read for Io {
    fn read(&mut self, out: &mut [u8]) -> std::io::Result<usize> {
        let length = self.cursor.readable(self.device.size_bytes(), out.len());
        self.device
            .read_at(self.cursor.position(), &mut out[..length])
            .map_err(io_error)?;
        self.cursor.advance(length);
        Ok(length)
    }
}

impl Write for Io {
    fn write(&mut self, bytes: &[u8]) -> std::io::Result<usize> {
        self.device
            .write_at(self.cursor.position(), bytes)
            .map_err(io_error)?;
        self.cursor.advance(bytes.len());
        Ok(bytes.len())
    }
    fn flush(&mut self) -> std::io::Result<()> {
        self.device.flush().map_err(io_error)
    }
}

impl Seek for Io {
    fn seek(&mut self, from: SeekFrom) -> std::io::Result<u64> {
        let whence = match from {
            SeekFrom::Start(n) => Whence::Start(n),
            SeekFrom::Current(n) => Whence::Current(n),
            SeekFrom::End(n) => Whence::End(n),
        };
        self.cursor
            .seek(self.device.size_bytes(), whence)
            .map_err(IoError::other)
    }
}

enum Mounted {
    Fat(fatfs::FileSystem<Io>),
    Ext4(Box<fs_ext4::Filesystem>),
}

fn io(device: &Arc<dyn BlockDevice>) -> Io {
    Io {
        device: device.clone(),
        cursor: Cursor::new(),
    }
}

fn mount_fat(device: &Arc<dyn BlockDevice>) -> Result<Mounted, String> {
    fatfs::FileSystem::new(io(device), fatfs::FsOptions::new())
        .map(Mounted::Fat)
        .map_err(|e| e.to_string())
}

fn journal_of(j: &fs_ext4::jbd2::JournalSuperblock) -> Journal {
    Journal {
        block_type: j.block_type,
        block_size: j.block_size,
        max_len: j.max_len,
        first: j.first,
        sequence: j.sequence,
        start: j.start,
        errno: j.errno,
        feature_compat: j.feature_compat,
        feature_incompat: j.feature_incompat,
        feature_ro_compat: j.feature_ro_compat,
        nr_users: j.nr_users,
    }
}

fn volume_of(
    sb: &fs_ext4::superblock::Superblock,
    journal: Option<fs_ext4::jbd2::JournalSuperblock>,
) -> Volume {
    Volume {
        block_size: sb.block_size(),
        blocks_count: sb.blocks_count,
        free_blocks_count: sb.free_blocks_count,
        r_blocks_count: sb.r_blocks_count,
        free_inodes_count: sb.free_inodes_count,
        uuid: sb.uuid,
        feature_compat: sb.feature_compat,
        feature_incompat: sb.feature_incompat,
        feature_ro_compat: sb.feature_ro_compat,
        state: sb.state,
        last_orphan: sb.last_orphan,
        journal: journal.as_ref().map(journal_of),
    }
}

fn inspect_volume(device: Arc<dyn BlockDevice>) -> Result<Volume, fs_ext4::Error> {
    let fs = fs_ext4::Filesystem::mount(Arc::new(ReadOnly(device)))?;
    let journal = fs_ext4::jbd2::read_superblock(&fs)?;
    Ok(volume_of(&fs.sb, journal))
}

fn facts(number: u32, inode: &fs_ext4::inode::Inode) -> InodeFacts {
    InodeFacts {
        number,
        mode: inode.mode,
        size: inode.size,
        links_count: inode.links_count,
        flags: inode.flags,
        generation: inode.generation,
    }
}

fn layout(fs: &fs_ext4::Filesystem) -> Layout {
    Layout {
        block_size: fs.sb.block_size(),
        file_types: has_file_types(fs.sb.feature_incompat),
        checksum_seed: fs.csum.seed,
        checksums: fs.csum.enabled,
    }
}

struct Host {
    core: Arc<Mutex<Session>>,
    device: Arc<dyn BlockDevice>,
    mounted: Option<Mounted>,
    walk: std::collections::VecDeque<Result<FatItem, String>>,
    file: (String, u64),
    inode: Option<(u32, fs_ext4::inode::Inode, Vec<u8>)>,
}

impl Host {
    fn open(kind: &str, writable: bool, device: Arc<Memory>) -> Result<Host, String> {
        let (session, first) =
            Session::open(kind, writable, device.is_writable(), device.size_bytes())?;
        let core = Arc::new(Mutex::new(session));
        let guarded: Arc<dyn BlockDevice> = Arc::new(Guarded {
            device,
            core: core.clone(),
        });
        let mut host = Host {
            core,
            device: guarded,
            mounted: None,
            walk: std::collections::VecDeque::new(),
            file: (String::new(), 0),
            inode: None,
        };
        let mut step = first;
        loop {
            match step {
                Step::Call(call, run) => {
                    let reply = host.perform(call);
                    step = host.core.lock().unwrap().resume_open(run, reply);
                }
                Step::Done(r) => {
                    r?;
                    return Ok(host);
                }
            }
        }
    }

    fn usable(&self) -> bool {
        self.core.lock().unwrap().usable()
    }

    fn perform(&mut self, call: Call) -> Reply {
        match self.attempt(call) {
            Ok(reply) => reply,
            Err(e) => Reply::Failed(e),
        }
    }

    fn fat<T>(
        &mut self,
        f: impl FnOnce(&fatfs::FileSystem<Io>, &mut (String, u64)) -> std::io::Result<T>,
    ) -> Result<T, String> {
        match &self.mounted {
            Some(Mounted::Fat(fs)) => f(fs, &mut self.file).map_err(|e| e.to_string()),
            _ => panic!("FAT call on another engine"),
        }
    }

    fn ext4(&self) -> &fs_ext4::Filesystem {
        match &self.mounted {
            Some(Mounted::Ext4(fs)) => fs,
            _ => panic!("ext4 call on another engine"),
        }
    }

    fn attempt(&mut self, call: Call) -> Result<Reply, String> {
        let text = |e: fs_ext4::Error| e.to_string();
        match call {
            Call::MountFat => {
                self.mounted = Some(mount_fat(&self.device)?);
                Ok(Reply::Done)
            }
            Call::InspectExt4 => inspect_volume(self.device.clone())
                .map(Reply::Superblocks)
                .map_err(text),
            Call::MountExt4 { recovering } => {
                let fs = if recovering {
                    fs_ext4::Filesystem::mount_recovering(self.device.clone())
                } else {
                    fs_ext4::Filesystem::mount(self.device.clone())
                };
                self.mounted = Some(Mounted::Ext4(Box::new(fs.map_err(text)?)));
                Ok(Reply::Done)
            }
            Call::OpenDirectory(p) => {
                let walk = self.fat(|fs, _| {
                    let dir = if p.is_empty() {
                        fs.root_dir()
                    } else {
                        fs.root_dir().open_dir(&p)?
                    };
                    Ok(dir
                        .iter()
                        .map(|item| {
                            item.map(|i| FatItem {
                                name: i.file_name(),
                                short_name: i.short_file_name(),
                                directory: i.is_dir(),
                                size: i.len(),
                            })
                            .map_err(|e| e.to_string())
                        })
                        .collect())
                })?;
                self.walk = walk;
                Ok(Reply::Done)
            }
            Call::NextEntry => Ok(Reply::Entry(self.walk.pop_front().transpose()?)),
            Call::OpenFile(p) => self.fat(|fs, file| {
                fs.root_dir().open_file(&p)?;
                *file = (p, 0);
                Ok(Reply::Done)
            }),
            Call::Seek(n) => self.fat(|fs, file| {
                file.1 = fs.root_dir().open_file(&file.0)?.seek(SeekFrom::Start(n))?;
                Ok(Reply::Done)
            }),
            Call::ReadSome(n) => self.fat(|fs, file| {
                let mut f = fs.root_dir().open_file(&file.0)?;
                f.seek(SeekFrom::Start(file.1))?;
                let mut out = vec![0; n];
                let count = f.read(&mut out)?;
                out.truncate(count);
                file.1 += count as u64;
                Ok(Reply::Bytes(out))
            }),
            Call::WriteAll(b) => self.fat(|fs, file| {
                let mut f = fs.root_dir().open_file(&file.0)?;
                f.seek(SeekFrom::Start(file.1))?;
                f.write_all(&b)?;
                f.flush()?;
                file.1 += b.len() as u64;
                Ok(Reply::Done)
            }),
            Call::FlushFile => self.fat(|fs, file| {
                fs.root_dir().open_file(&file.0)?.flush()?;
                Ok(Reply::Done)
            }),
            Call::TruncateFile => self.fat(|fs, file| {
                let mut f = fs.root_dir().open_file(&file.0)?;
                f.seek(SeekFrom::Start(file.1))?;
                f.truncate()?;
                Ok(Reply::Done)
            }),
            Call::CreateFile(p) => self.fat(|fs, file| {
                fs.root_dir().create_file(&p)?;
                *file = (p, 0);
                Ok(Reply::Done)
            }),
            Call::CreateDirectory(p) => self.fat(|fs, _| {
                fs.root_dir().create_dir(&p)?;
                Ok(Reply::Done)
            }),
            Call::RemoveEntry(p) => self.fat(|fs, _| {
                fs.root_dir().remove(&p)?;
                Ok(Reply::Done)
            }),
            Call::RenameEntry(p, q) => self.fat(|fs, _| {
                let root = fs.root_dir();
                root.rename(&p, &root, &q)?;
                Ok(Reply::Done)
            }),
            Call::Statistics => self.fat(|fs, _| {
                let stats = fs.stats()?;
                Ok(Reply::Clusters {
                    cluster_size: stats.cluster_size(),
                    total: stats.total_clusters(),
                    free: stats.free_clusters(),
                })
            }),
            Call::StatusFlags => {
                self.fat(|fs, _| Ok(Reply::Dirty(fs.read_status_flags()?.dirty())))
            }
            Call::Resolve(p) => {
                let fs = self.ext4();
                let number = fs_ext4::path::lookup_with_csum(
                    fs.dev.as_ref(),
                    &fs.sb,
                    &mut |n| fs.read_inode_verified(n).map(|(inode, _)| inode),
                    &p,
                    &fs.csum,
                )
                .map_err(text)?;
                let (inode, raw) = fs.read_inode_verified(number).map_err(text)?;
                let reply = Reply::Resolved(facts(number, &inode), layout(fs));
                self.inode = Some((number, inode, raw));
                Ok(reply)
            }
            Call::ReadInode(n) => {
                let (inode, _) = self.ext4().read_inode_verified(n).map_err(text)?;
                Ok(Reply::Inode(facts(n, &inode)))
            }
            Call::OpenInode(n) => {
                let fs = self.ext4();
                let (inode, raw) = fs.read_inode_verified(n).map_err(text)?;
                let reply = Reply::Resolved(facts(n, &inode), layout(fs));
                self.inode = Some((n, inode, raw));
                Ok(reply)
            }
            Call::MapBlock(n) => {
                let (_, inode, _) = self.inode.as_ref().unwrap();
                self.ext4()
                    .map_inode_logical(inode, n)
                    .map(Reply::Mapped)
                    .map_err(text)
            }
            Call::ReadBlock(n) => self.ext4().read_block(n).map(Reply::Bytes).map_err(text),
            Call::ReadFile { offset, wanted } => {
                let (number, inode, raw) = self.inode.as_ref().unwrap();
                let mut out = vec![0; wanted];
                let count = fs_ext4::file_io::read_with_raw_verified(
                    self.ext4(),
                    inode,
                    raw,
                    *number,
                    offset,
                    wanted as u64,
                    &mut out,
                )
                .map_err(text)?;
                out.truncate(count as usize);
                Ok(Reply::Bytes(out))
            }
            Call::ReadWhole => {
                let (_, inode, _) = self.inode.as_ref().unwrap();
                fs_ext4::file_io::read_all(self.ext4(), inode)
                    .map(Reply::Bytes)
                    .map_err(text)
            }
            Call::CreateInode(p) => self
                .ext4()
                .apply_create(&p, 0o600)
                .map(Reply::Created)
                .map_err(text),
            Call::WriteInode { path, offset, data } => self
                .ext4()
                .apply_pwrite(&path, offset, &data)
                .map(|_| Reply::Done)
                .map_err(text),
            Call::ShrinkInode { number, length } => self
                .ext4()
                .apply_truncate_shrink(number, length)
                .map(|_| Reply::Done)
                .map_err(text),
            Call::MakeDirectory(p) => self
                .ext4()
                .apply_mkdir(&p, 0o700)
                .map(|_| Reply::Done)
                .map_err(text),
            Call::RemoveDirectory(p) => {
                self.ext4().apply_rmdir(&p).map(|_| Reply::Done).map_err(text)
            }
            Call::Unlink(p) => self.ext4().apply_unlink(&p).map(|_| Reply::Done).map_err(text),
            Call::RenameInode(p, q) => self
                .ext4()
                .apply_rename(&p, &q, false)
                .map(|_| Reply::Done)
                .map_err(text),
            Call::ReadVolume => {
                let fs = self.ext4();
                let sb = fs_ext4::superblock::Superblock::read(fs.dev.as_ref()).map_err(text)?;
                let journal = fs_ext4::jbd2::read_superblock(fs).map_err(text)?;
                Ok(Reply::Superblocks(volume_of(&sb, journal)))
            }
            Call::FlushEngine => match self.mounted.take() {
                Some(Mounted::Fat(fs)) => {
                    fs.unmount().map_err(|e| e.to_string())?;
                    self.mounted = Some(mount_fat(&self.device)?);
                    Ok(Reply::Done)
                }
                Some(Mounted::Ext4(fs)) => {
                    let flushed = fs.flush();
                    self.mounted = Some(Mounted::Ext4(fs));
                    flushed.map(|_| Reply::Done).map_err(text)
                }
                None => panic!("flush without a mount"),
            },
            Call::Refresh => match self.mounted.take() {
                Some(Mounted::Fat(fs)) => {
                    drop(fs);
                    self.mounted = Some(mount_fat(&self.device)?);
                    Ok(Reply::Done)
                }
                Some(Mounted::Ext4(mut fs)) => {
                    let fresh = fs.fresh_read();
                    self.mounted = Some(Mounted::Ext4(fs));
                    fresh.map(|_| Reply::Done).map_err(text)
                }
                None => panic!("refresh without a mount"),
            },
            Call::Unmount => match self.mounted.take() {
                Some(Mounted::Fat(fs)) => {
                    fs.unmount().map(|_| Reply::Done).map_err(|e| e.to_string())
                }
                Some(Mounted::Ext4(fs)) => fs.finish().map(|_| Reply::Done).map_err(text),
                None => panic!("unmount without a mount"),
            },
            Call::FlushDevice => self.device.flush().map(|_| Reply::Done).map_err(text),
        }
    }

    fn stat(&mut self, p: &str) -> Result<Entry, String> {
        let mut step = self.core.lock().unwrap().stat(p);
        loop {
            match step {
                Step::Call(call, run) => {
                    let reply = self.perform(call);
                    step = run.resume(reply);
                }
                Step::Done(r) => return r,
            }
        }
    }

    fn list(&mut self, p: &str) -> Result<Vec<Entry>, String> {
        let mut step = self.core.lock().unwrap().list(p);
        loop {
            match step {
                Step::Call(call, run) => {
                    let reply = self.perform(call);
                    step = run.resume(reply);
                }
                Step::Done(r) => return r.map(|l| l.entries),
            }
        }
    }

    fn read(&mut self, p: &str, offset: u64, length: usize) -> Result<Vec<u8>, String> {
        let mut step = self.core.lock().unwrap().read(p, offset, length);
        loop {
            match step {
                Step::Call(call, run) => {
                    let reply = self.perform(call);
                    step = run.resume(reply);
                }
                Step::Done(r) => return r,
            }
        }
    }

    fn change(&mut self, start: impl FnOnce(&mut Session) -> MutateStep) -> Result<(), String> {
        let mut step = start(&mut self.core.lock().unwrap());
        loop {
            match step {
                Step::Call(call, run) => {
                    let reply = self.perform(call);
                    step = self.core.lock().unwrap().resume_mutation(run, reply);
                }
                Step::Done(r) => return r,
            }
        }
    }

    fn create_file(&mut self, p: &str) -> Result<(), String> {
        self.change(|s| s.create_file(p))
    }
    fn write(&mut self, p: &str, offset: u64, data: &[u8]) -> Result<(), String> {
        self.change(|s| s.write(p, offset, data))
    }
    fn truncate(&mut self, p: &str, length: u64) -> Result<(), String> {
        self.change(|s| s.truncate(p, length))
    }
    fn mkdir(&mut self, p: &str) -> Result<(), String> {
        self.change(|s| s.mkdir(p))
    }
    fn remove(&mut self, p: &str) -> Result<(), String> {
        self.change(|s| s.remove(p))
    }
    fn rename(&mut self, p: &str, q: &str) -> Result<(), String> {
        self.change(|s| s.rename(p, q))
    }

    fn inspect(&mut self) -> Result<Summary, String> {
        let mut step = self.core.lock().unwrap().inspect();
        loop {
            match step {
                Step::Call(call, run) => {
                    let reply = self.perform(call);
                    step = self.core.lock().unwrap().resume_inspection(run, reply);
                }
                Step::Done(r) => return r,
            }
        }
    }

    fn finish(&mut self) -> Result<(), String> {
        let mut step = self.core.lock().unwrap().finish();
        let r = loop {
            match step {
                Step::Call(call, run) => {
                    let reply = self.perform(call);
                    step = self.core.lock().unwrap().resume_finish(run, reply);
                }
                Step::Done(r) => break r,
            }
        };
        self.mounted = None;
        r
    }

    fn live(&mut self, refresh: bool) -> Result<(), String> {
        let mut step = if refresh {
            self.core.lock().unwrap().fresh_read()
        } else {
            self.core.lock().unwrap().flush()
        };
        loop {
            match step {
                Step::Call(call, run) => {
                    let reply = self.perform(call);
                    step = self.core.lock().unwrap().resume_live(run, reply);
                }
                Step::Done(r) => return r,
            }
        }
    }
    fn flush(&mut self) -> Result<(), String> {
        self.live(false)
    }
    fn fresh_read(&mut self) -> Result<(), String> {
        self.live(true)
    }

    fn abort(&mut self) {
        self.core.lock().unwrap().abort();
        self.mounted = None;
    }
}

impl Drop for Host {
    fn drop(&mut self) {
        self.abort();
    }
}

const SIZE: usize = 32 * 1024 * 1024;

fn memory() -> Arc<Memory> {
    Arc::new(Memory {
        bytes: Mutex::new(vec![0; SIZE]),
        writes: AtomicUsize::new(0),
        fail: AtomicBool::new(false),
    })
}

fn fixture(kind: &str) -> Arc<Memory> {
    let device = memory();
    let raw: Arc<dyn BlockDevice> = device.clone();
    if kind == "fat" {
        fatfs::format_volume(
            io(&raw),
            fatfs::FormatVolumeOptions::new().fat_type(fatfs::FatType::Fat16),
        )
        .unwrap();
    } else {
        fs_ext4::mkfs::format_filesystem_with_flavor(
            device.as_ref(),
            None,
            Some([8; 16]),
            SIZE as u64,
            4096,
            fs_ext4::features::FsFlavor::Ext3,
        )
        .unwrap();
        // A journal as ext3 has it, and extents for what is created from here on.
        let mut bytes = device.bytes.lock().unwrap();
        let flags = u32::from_le_bytes(bytes[1120..1124].try_into().unwrap()) | 0x40;
        bytes[1120..1124].copy_from_slice(&flags.to_le_bytes());
    }
    device.writes.store(0, Ordering::Relaxed);
    device
}

fn free_bytes(s: Summary) -> u64 {
    match s {
        Summary::Fat(f) => f.free_bytes,
        Summary::Ext4(e) => e.free_bytes,
    }
}

#[test]
fn both_filesystems_preserve_unrelated_files_and_reopen_verified() {
    for kind in ["fat", "ext4"] {
        let device = fixture(kind);
        let payload: Vec<_> = (0..20000).map(|n| (n % 251) as u8).collect();
        let mut fs = Host::open(kind, true, device.clone()).unwrap();
        assert!(free_bytes(fs.inspect().unwrap()) > 16 * 1024 * 1024);
        fs.create_file("/unrelated.bin").unwrap();
        fs.write("/unrelated.bin", 0, b"preserve").unwrap();
        if kind == "ext4" {
            let entry = fs.stat("/unrelated.bin").unwrap();
            assert!(entry.inode.is_some_and(|n| n > 2));
            assert!(entry.generation.is_some_and(|n| n > 0));
        }
        fs.mkdir("/managed").unwrap();
        fs.create_file("/managed/stage.bin").unwrap();
        assert!(fs.write("/managed/stage.bin", 1, b"gap").is_err());
        assert_eq!(fs.stat("/managed/stage.bin").unwrap().size, 0);
        fs.write("/managed/stage.bin", 0, &payload).unwrap();
        let written = device.writes.load(Ordering::Relaxed);
        fs.truncate("/managed/stage.bin", payload.len() as u64)
            .unwrap();
        assert_eq!(device.writes.load(Ordering::Relaxed), written);
        assert!(fs.usable());
        fs.rename("/managed/stage.bin", "/managed/result.bin")
            .unwrap();
        assert!(fs.create_file("/managed/result.bin").is_err());
        fs.create_file("/temporary").unwrap();
        fs.remove("/temporary").unwrap();
        fs.finish().unwrap();
        assert!(!fs.usable());
        let mut fresh = Host::open(kind, false, device.clone()).unwrap();
        assert_eq!(
            fresh.read("/managed/result.bin", 0, payload.len()).unwrap(),
            payload
        );
        assert_eq!(fresh.read("/unrelated.bin", 0, 8).unwrap(), b"preserve");
        assert!(fresh
            .list("/managed")
            .unwrap()
            .iter()
            .any(|e| e.name == "result.bin"));
        let baseline = device.writes.load(Ordering::Relaxed);
        assert!(fresh.create_file("/new").is_err());
        assert!(fresh.write("/unrelated.bin", 0, b"x").is_err());
        assert!(fresh.truncate("/unrelated.bin", 0).is_err());
        assert!(fresh.mkdir("/other").is_err());
        assert!(fresh.remove("/unrelated.bin").is_err());
        assert!(fresh.rename("/unrelated.bin", "/renamed").is_err());
        for path in [
            "../escape",
            "/../escape",
            "/managed/../escape",
            "/managed//result.bin",
            "/managed/result.bin.",
            "/managed\\result.bin",
        ] {
            assert!(fresh.stat(path).is_err());
        }
        fresh.finish().unwrap();
        assert_eq!(device.writes.load(Ordering::Relaxed), baseline);
    }
}

#[test]
fn failed_write_retires_before_drop_or_further_commands() {
    for kind in ["fat", "ext4"] {
        let device = fixture(kind);
        let mut fs = Host::open(kind, true, device.clone()).unwrap();
        fs.create_file("/stage").unwrap();
        device.fail.store(true, Ordering::Relaxed);
        assert!(fs.write("/stage", 0, b"uncertain").is_err());
        assert!(!fs.usable());
        let baseline = device.writes.load(Ordering::Relaxed);
        assert!(fs.write("/stage", 0, b"retry").is_err());
        assert!(fs.finish().is_err());
        drop(fs);
        assert_eq!(device.writes.load(Ordering::Relaxed), baseline);
    }
}

#[test]
fn fat_unicode_alias_cannot_bypass_exclusive_create() {
    let device = fixture("fat");
    let mut fs = Host::open("fat", true, device).unwrap();
    fs.create_file("/évidence.txt").unwrap();
    assert!(fs.create_file("/ÉVIDENCE.TXT").is_err());
    fs.finish().unwrap();
}

#[test]
fn ext4_links_cannot_redirect_reads_or_unrelated_writes() {
    let device = fixture("ext4");
    let fs = fs_ext4::Filesystem::mount_recovering(device.clone()).unwrap();
    fs.apply_create("/original", 0o600).unwrap();
    fs.apply_pwrite("/original", 0, b"preserve").unwrap();
    fs.apply_symlink("/original", "/alias").unwrap();
    fs.apply_link("/original", "/second-name").unwrap();
    fs.finish().unwrap();
    let mut fs = Host::open("ext4", true, device.clone()).unwrap();
    assert!(fs.read("/alias", 0, 8).is_err());
    assert!(fs.read("/alias/child", 0, 8).is_err());
    assert!(fs.write("/second-name", 0, b"changed!").is_err());
    fs.abort();
    let mut fresh = Host::open("ext4", false, device).unwrap();
    assert_eq!(fresh.read("/original", 0, 8).unwrap(), b"preserve");
    fresh.finish().unwrap();
}

#[test]
fn live_sessions_flush_and_refresh_without_reopening() {
    for kind in ["fat", "ext4"] {
        let device = fixture(kind);
        let mut ro = Host::open(kind, false, device.clone()).unwrap();
        ro.inspect().unwrap();
        ro.flush().unwrap();
        ro.fresh_read().unwrap();
        assert_eq!(device.writes.load(Ordering::Relaxed), 0);
        ro.finish().unwrap();
        let mut fs = Host::open(kind, true, device.clone()).unwrap();
        fs.create_file("/live").unwrap();
        for text in [b"first".as_slice(), b"later".as_slice()] {
            fs.write("/live", 0, text).unwrap();
            fs.flush().unwrap();
            fs.fresh_read().unwrap();
            assert!(fs.usable());
            assert_eq!(fs.read("/live", 0, text.len()).unwrap(), text);
        }
        device.fail.store(true, Ordering::Relaxed);
        assert!(fs.flush().is_err());
        assert!(!fs.usable());
    }
}

fn shown(e: &Entry) -> (String, &'static str, u64, Option<u32>, Option<u32>) {
    (e.name.clone(), e.kind, e.size, e.inode, e.generation)
}

#[test]
fn lookups_and_listings_agree() {
    for kind in ["fat", "ext4"] {
        let mut fs = Host::open(kind, true, fixture(kind)).unwrap();
        fs.mkdir("/d").unwrap();
        assert!(fs.list("/d").unwrap().is_empty());
        fs.mkdir("/d/inner").unwrap();
        for (name, length) in [("/d/a", 0usize), ("/d/b.bin", 5000), ("/d/inner/c", 3)] {
            fs.create_file(name).unwrap();
            fs.write(name, 0, &vec![7; length]).unwrap();
        }
        let listed = fs.list("/d").unwrap();
        assert_eq!(listed.len(), 3);
        for entry in &listed {
            let found = fs.stat(&format!("/d/{}", entry.name)).unwrap();
            assert_eq!(shown(&found), shown(entry));
        }
        assert_eq!(fs.stat("/d/absent").unwrap_err(), "not found");
        assert!(listed.iter().all(|e| e.name != "absent"));
        fs.finish().unwrap();
    }
}

#[test]
fn writes_change_the_part_they_name_and_nothing_else() {
    for kind in ["fat", "ext4"] {
        let mut fs = Host::open(kind, true, fixture(kind)).unwrap();
        fs.create_file("/f").unwrap();
        fs.create_file("/other").unwrap();
        fs.write("/other", 0, b"kept").unwrap();
        fs.write("/f", 0, b"0123456789").unwrap();
        fs.write("/f", 4, b"abc").unwrap();
        assert_eq!(fs.read("/f", 0, 64).unwrap(), b"0123abc789");
        fs.write("/f", 8, b"XYZ!").unwrap();
        assert_eq!(fs.read("/f", 0, 64).unwrap(), b"0123abc7XYZ!");
        assert_eq!(fs.read("/f", 5, 4).unwrap(), b"bc7X");
        assert_eq!(fs.read("/f", 12, 4).unwrap(), b"");
        assert_eq!(fs.stat("/f").unwrap().size, 12);
        assert_eq!(fs.read("/other", 0, 64).unwrap(), b"kept");
        fs.finish().unwrap();
    }
}

#[test]
fn truncations_keep_the_start() {
    for kind in ["fat", "ext4"] {
        let mut fs = Host::open(kind, true, fixture(kind)).unwrap();
        let payload: Vec<u8> = (0..9000u32).map(|n| (n % 251) as u8).collect();
        for name in ["/f", "/other"] {
            fs.create_file(name).unwrap();
            fs.write(name, 0, &payload).unwrap();
        }
        for length in [9000usize, 5000, 4096, 7, 0] {
            fs.truncate("/f", length as u64).unwrap();
            assert_eq!(fs.read("/f", 0, 9000).unwrap(), &payload[..length]);
            assert_eq!(fs.stat("/f").unwrap().size, length as u64);
        }
        assert_eq!(
            fs.truncate("/f", 1).unwrap_err(),
            "truncate only shrinks existing regular files"
        );
        assert_eq!(fs.read("/other", 0, 9000).unwrap(), payload);
        fs.finish().unwrap();
    }
}

#[test]
fn renames_move_one_entry() {
    for kind in ["fat", "ext4"] {
        let mut fs = Host::open(kind, true, fixture(kind)).unwrap();
        for dir in ["/a", "/b"] {
            fs.mkdir(dir).unwrap();
        }
        for (name, text) in [("/a/f", b"moved"), ("/b/kept", b"kept!")] {
            fs.create_file(name).unwrap();
            fs.write(name, 0, text).unwrap();
        }
        fs.rename("/a/f", "/b/g").unwrap();
        assert_eq!(fs.read("/b/g", 0, 8).unwrap(), b"moved");
        assert_eq!(fs.stat("/a/f").unwrap_err(), "not found");
        assert_eq!(fs.read("/b/kept", 0, 8).unwrap(), b"kept!");
        // A directory goes with all that is in it.
        fs.rename("/b", "/a/c").unwrap();
        assert_eq!(fs.stat("/b").unwrap_err(), "not found");
        assert_eq!(fs.read("/a/c/g", 0, 8).unwrap(), b"moved");
        assert_eq!(fs.rename("/a", "/a").unwrap_err(), "already exists");
        assert!(fs.usable());
        fs.finish().unwrap();
    }
}

#[test]
fn removal_takes_one_entry_and_undoes_creation() {
    for kind in ["fat", "ext4"] {
        let device = fixture(kind);
        let mut fs = Host::open(kind, true, device.clone()).unwrap();
        fs.create_file("/kept").unwrap();
        fs.write("/kept", 0, b"kept").unwrap();
        let before: Vec<_> = fs.list("/").unwrap().iter().map(shown).collect();
        fs.create_file("/f").unwrap();
        fs.mkdir("/d").unwrap();
        assert_eq!(fs.list("/").unwrap().len(), before.len() + 2);
        fs.create_file("/d/inside").unwrap();
        fs.remove("/d/inside").unwrap();
        fs.remove("/d").unwrap();
        fs.remove("/f").unwrap();
        for gone in ["/f", "/d"] {
            assert_eq!(fs.stat(gone).unwrap_err(), "not found");
        }
        let after: Vec<_> = fs.list("/").unwrap().iter().map(shown).collect();
        assert_eq!(after, before);
        assert_eq!(fs.read("/kept", 0, 8).unwrap(), b"kept");
        let written = device.writes.load(Ordering::Relaxed);
        assert_eq!(fs.remove("/absent").unwrap_err(), "not found");
        assert_eq!(fs.remove("/").unwrap_err(), "cannot remove root");
        assert_eq!(device.writes.load(Ordering::Relaxed), written);
        assert!(fs.usable());
        fs.finish().unwrap();
    }
}

#[test]
fn directories_that_hold_something_are_not_removed() {
    for kind in ["fat", "ext4"] {
        let device = fixture(kind);
        let mut fs = Host::open(kind, true, device.clone()).unwrap();
        fs.mkdir("/d").unwrap();
        fs.create_file("/d/inside").unwrap();
        fs.write("/d/inside", 0, b"kept").unwrap();
        fs.flush().unwrap();
        assert!(fs.remove("/d").is_err());
        fs.abort();
        let mut fresh = Host::open(kind, false, device).unwrap();
        assert_eq!(fresh.read("/d/inside", 0, 8).unwrap(), b"kept");
        fresh.finish().unwrap();
    }
}

#[test]
fn probes_pass_on_real_engines() {
    for (name, kind) in [("fat", Kind::Fat), ("ext4", Kind::Ext4)] {
        let mut host = Host::open(name, true, fixture(name)).unwrap();
        let payload: Vec<u8> = (0..70_000u32).map(|n| (n % 251) as u8).collect();
        let mut step = ProbeRun::start(kind, &payload);
        loop {
            match step {
                Step::Call(call, run) => {
                    let reply = host.perform(call);
                    step = run.resume(reply);
                }
                Step::Done(r) => {
                    assert_eq!(r, Ok(()));
                    break;
                }
            }
        }
    }
}

#[test]
fn unsupported_journal_is_inspected_without_any_write() {
    let device = memory();
    fs_ext4::mkfs::format_filesystem(
        device.as_ref(),
        None,
        Some([8; 16]),
        32 * 1024 * 1024,
        4096,
    )
    .unwrap();
    {
        let mut bytes = device.bytes.lock().unwrap();
        let sb = &mut bytes[1024..2048];
        let flags = u32::from_le_bytes(sb[0x60..0x64].try_into().unwrap()) | 4;
        sb[0x60..0x64].copy_from_slice(&flags.to_le_bytes());
        let crc = fs_ext4::checksum::linux_crc32c(!0, &sb[..0x3fc]);
        sb[0x3fc..].copy_from_slice(&crc.to_le_bytes());
    }
    device.writes.store(0, Ordering::Relaxed);
    let state = journal::inspect(&inspect_volume(device.clone()).unwrap());
    assert!(state.needs_recovery && state.write_blocker.is_some());
    assert!(Host::open("ext4", true, device.clone()).is_err());
    assert_eq!(device.writes.load(Ordering::Relaxed), 0);
}

fn journal_block(device: &Arc<Memory>) -> usize {
    let fs = fs_ext4::Filesystem::mount(Arc::new(ReadOnly(device.clone()))).unwrap();
    let raw = fs.read_inode_raw(fs.sb.journal_inode).unwrap();
    let inode = fs_ext4::inode::Inode::parse(&raw).unwrap();
    fs_ext4::jbd2::journal_block_to_physical(&fs, &inode, 0)
        .unwrap()
        .unwrap() as usize
        * 4096
}

#[test]
fn ordinary_recovery_is_supported_but_checksum_format_is_not() {
    let device = fixture("ext4");
    {
        let mut bytes = device.bytes.lock().unwrap();
        let flags = u32::from_le_bytes(bytes[1120..1124].try_into().unwrap()) | 4;
        bytes[1120..1124].copy_from_slice(&flags.to_le_bytes());
    }
    let state = journal::inspect(&inspect_volume(device.clone()).unwrap());
    assert!(state.needs_recovery);
    assert!(
        state.write_blocker.is_none(),
        "ordinary recovery must be supported"
    );
    assert_eq!(device.writes.load(Ordering::Relaxed), 0);
    Host::open("ext4", true, device.clone())
        .unwrap()
        .finish()
        .unwrap();
    assert!(!journal::inspect(&inspect_volume(device.clone()).unwrap()).needs_recovery);
    let journal = journal_block(&device);
    {
        let mut bytes = device.bytes.lock().unwrap();
        bytes[journal + 0x28..journal + 0x2c].copy_from_slice(&0x10u32.to_be_bytes());
    }
    device.writes.store(0, Ordering::Relaxed);
    assert!(journal::inspect(&inspect_volume(device.clone()).unwrap())
        .write_blocker
        .is_some());
    assert!(Host::open("ext4", true, device.clone()).is_err());
    assert_eq!(
        device.writes.load(Ordering::Relaxed),
        0,
        "unsupported checksum format must not write even with a clean cursor"
    );
}
