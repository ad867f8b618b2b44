use vstd::prelude::*;

use crate::cli::HumanReadable;
use crate::device::{FileEntry, KindleInfo, StorageInfo};
use crate::error::Error;
use crate::text::{dec_string, spec_dec};

verus! {

// ---------------------------------------------------------------------------
// info
// ---------------------------------------------------------------------------
/// The detailed device report of the one-shot info operation.
pub struct InfoOutput {
    pub device: String,
    pub manufacturer: String,
    pub model: String,
    pub serial: String,
    pub storage_description: String,
    pub total_bytes: u64,
    pub free_bytes: u64,
}

/// Assembles the detailed device report from identity and storage metadata.
pub fn run_info(info: KindleInfo, storage: StorageInfo) -> (r: InfoOutput)
    ensures
        r.device@ == info.friendly_name@,
        r.manufacturer@ == info.manufacturer@,
        r.model@ == info.model@,
        r.serial@ == info.serial@,
        r.storage_description@ == storage.description@,
        r.total_bytes == storage.total_bytes,
        r.free_bytes == storage.free_bytes,
{
    InfoOutput {
        device: info.friendly_name,
        manufacturer: info.manufacturer,
        model: info.model,
        serial: info.serial,
        storage_description: storage.description,
        total_bytes: storage.total_bytes,
        free_bytes: storage.free_bytes,
    }
}

// ---------------------------------------------------------------------------
// status
// ---------------------------------------------------------------------------
/// The quick connection summary of the one-shot status operation.
pub struct StatusOutput {
    pub connected: bool,
    pub model: String,
    pub free_bytes: u64,
    pub total_bytes: u64,
}

/// Assembles the connection summary for an acquired device.
pub fn run_status(info: KindleInfo, storage: StorageInfo) -> (r: StatusOutput)
    ensures
        r.connected,
        r.model@ == info.friendly_name@,
        r.free_bytes == storage.free_bytes,
        r.total_bytes == storage.total_bytes,
{
    StatusOutput {
        connected: true,
        model: info.friendly_name,
        free_bytes: storage.free_bytes,
        total_bytes: storage.total_bytes,
    }
}

// ---------------------------------------------------------------------------
// ls
// ---------------------------------------------------------------------------
/// One listed entry, stripped of the device-internal identifier.
pub struct LsEntry {
    pub name: String,
    pub size: u64,
    pub is_folder: bool,
}

impl From<FileEntry> for LsEntry {
    fn from(f: FileEntry) -> (r: LsEntry) {
        LsEntry { name: f.name, size: f.size, is_folder: f.is_folder }
    }
}

impl vstd::std_specs::convert::FromSpecImpl<FileEntry> for LsEntry {
    open spec fn obeys_from_spec() -> bool {
        true
    }

    open spec fn from_spec(f: FileEntry) -> LsEntry {
        LsEntry { name: f.name, size: f.size, is_folder: f.is_folder }
    }
}

/// The listing of the one-shot ls operation, entries in adapter order.
pub struct LsOutput {
    pub path: String,
    pub entries: Vec<LsEntry>,
}

/// The same listing, rendered long (type marker and size per line).
pub struct LsOutputLong(pub LsOutput);

/// Assembles the listing output: the path as asked for, the entries exactly
/// as fetched — order and duplicates preserved, identifier dropped.
pub fn run_ls(path: String, files: Vec<FileEntry>) -> (r: LsOutput)
    ensures
        r.path@ == path@,
        r.entries@.len() == files@.len(),
        forall|i: int|
            0 <= i < files@.len() ==> (#[trigger] r.entries@[i]).name@ == files@[i].name@
                && r.entries@[i].size == files@[i].size && r.entries@[i].is_folder
                == files@[i].is_folder,
{
    let n = files.len();
    let mut entries: Vec<LsEntry> = Vec::new();
    let mut i: usize = 0;
    while i < n
        invariant
            i <= n,
            n == files@.len(),
            entries@.len() == i as int,
            forall|k: int|
                0 <= k < i ==> (#[trigger] entries@[k]).name@ == files@[k].name@
                    && entries@[k].size == files@[k].size && entries@[k].is_folder
                    == files@[k].is_folder,
        decreases n - i,
    {
        let f = FileEntry {
            name: files[i].name.clone(),
            size: files[i].size,
            is_folder: files[i].is_folder,
            id: files[i].id,
        };
        entries.push(LsEntry::from(f));
        i = i + 1;
    }
    LsOutput { path, entries }
}

/// One line of the short listing: the name, with `'/'` marking a folder.
pub open spec fn spec_ls_line(e: LsEntry) -> Seq<char> {
    if e.is_folder {
        e.name@ + seq!['/']
    } else {
        e.name@
    }
}

/// The short listing's lines joined with newlines.
pub open spec fn spec_ls_joined(entries: Seq<LsEntry>) -> Seq<char>
    decreases entries.len(),
{
    if entries.len() == 0 {
        Seq::empty()
    } else if entries.len() == 1 {
        spec_ls_line(entries[0])
    } else {
        spec_ls_line(entries[0]) + seq!['\n'] + spec_ls_joined(entries.drop_first())
    }
}

/// The short human rendering: `(empty)` for nothing, else one entry a line.
pub open spec fn spec_ls_human(o: LsOutput) -> Seq<char> {
    if o.entries.len() == 0 {
        "(empty)"@
    } else {
        spec_ls_joined(o.entries@)
    }
}

proof fn lemma_ls_joined_snoc(entries: Seq<LsEntry>, k: int)
    requires
        1 <= k < entries.len(),
    ensures
        spec_ls_joined(entries.take(k + 1)) =~= spec_ls_joined(entries.take(k)) + seq!['\n']
            + spec_ls_line(entries[k]),
    decreases k,
{
    let t = entries.take(k + 1);
    if k == 1 {
        assert(t.drop_first() =~= entries.drop_first().take(1));
        assert(entries.drop_first().take(1)[0] == entries[1]);
        assert(spec_ls_joined(entries.drop_first().take(1)) == spec_ls_line(entries[1]));
        assert(entries.take(1)[0] == entries[0]);
    } else {
        let rest = entries.drop_first();
        assert(t.drop_first() =~= rest.take(k));
        assert(entries.take(k).drop_first() =~= rest.take(k - 1));
        lemma_ls_joined_snoc(rest, k - 1);
        assert(rest[k - 1] == entries[k]);
        assert(t[0] == entries[0]);
        assert(entries.take(k)[0] == entries[0]);
        assert(spec_ls_line(entries[0]) + seq!['\n'] + (spec_ls_joined(rest.take(k - 1))
            + seq!['\n'] + spec_ls_line(entries[k])) =~= (spec_ls_line(entries[0]) + seq!['\n']
            + spec_ls_joined(rest.take(k - 1))) + seq!['\n'] + spec_ls_line(entries[k]));
    }
}

impl LsOutput {
    /// The short rendering, pinned to `spec_ls_human`.
    pub fn render(&self) -> (r: String)
        ensures
            r@ == spec_ls_human(*self),
    {
        let n = self.entries.len();
        if n == 0 {
            String::from_str("(empty)")
        } else {
            let mut s = String::new();
            let mut i: usize = 0;
            proof {
                reveal_strlit("\n");
                reveal_strlit("/");
            }
            while i < n
                invariant
                    i <= n,
                    1 <= n,
                    n == self.entries@.len(),
                    i > 0 ==> s@ == spec_ls_joined(self.entries@.take(i as int)),
                    i == 0 ==> s@ =~= Seq::<char>::empty(),
                decreases n - i,
            {
                let ghost pre = s@;
                if i > 0 {
                    s.append("\n");
                }
                s.append(self.entries[i].name.as_str());
                if self.entries[i].is_folder {
                    s.append("/");
                }
                proof {
                    reveal_strlit("\n");
                    reveal_strlit("/");
                    assert("\n"@ =~= seq!['\n']);
                    assert("/"@ =~= seq!['/']);
                    if i == 0 {
                        assert(self.entries@.take(1)[0] == self.entries@[0]);
                        assert(s@ =~= spec_ls_line(self.entries@[0]));
                        assert(spec_ls_joined(self.entries@.take(1)) == spec_ls_line(
                            self.entries@.take(1)[0],
                        ));
                    } else {
                        lemma_ls_joined_snoc(self.entries@, i as int);
                        assert(s@ =~= pre + seq!['\n'] + spec_ls_line(self.entries@[i as int]));
                    }
                }
                i = i + 1;
            }
            proof {
                assert(self.entries@.take(n as int) =~= self.entries@);
            }
            s
        }
    }
}

impl HumanReadable for LsOutput {
    fn to_human(&self) -> String {
        self.render()
    }
}

// ---------------------------------------------------------------------------
// pull
// ---------------------------------------------------------------------------
/// The report of a completed one-shot download.
pub struct PullOutput {
    pub remote: String,
    pub local: String,
    pub bytes: u64,
}

/// The human rendering of a completed download.
pub open spec fn spec_pull_human(o: PullOutput) -> Seq<char> {
    "Downloaded "@ + o.remote@ + " -> "@ + o.local@ + " ("@ + spec_dec(o.bytes as nat)
        + " bytes)"@
}

impl PullOutput {
    /// The rendering, pinned to `spec_pull_human`.
    pub fn render(&self) -> (r: String)
        ensures
            r@ == spec_pull_human(*self),
    {
        let mut s = String::from_str("Downloaded ");
        s.append(self.remote.as_str());
        s.append(" -> ");
        s.append(self.local.as_str());
        s.append(" (");
        let num = dec_string(self.bytes);
        s.append(num.as_str());
        s.append(" bytes)");
        proof {
            assert(s@ =~= spec_pull_human(*self));
        }
        s
    }
}

impl HumanReadable for PullOutput {
    fn to_human(&self) -> String {
        self.render()
    }
}

/// What follows the last `'/'` of a path: the name a download lands under
/// when the local destination is a directory.
pub open spec fn after_last_slash(s: Seq<char>) -> Seq<char>
    decreases s.len(),
{
    if s.len() == 0 {
        Seq::empty()
    } else if s.last() == '/' {
        Seq::empty()
    } else {
        after_last_slash(s.drop_last()).push(s.last())
    }
}

proof fn lemma_after_last_slash(s: Seq<char>, i: int)
    requires
        0 <= i <= s.len(),
        i == 0 || s[i - 1] == '/',
        forall|k: int| i <= k < s.len() ==> s[k] != '/',
    ensures
        after_last_slash(s) =~= s.subrange(i, s.len() as int),
    decreases s.len() - i,
{
    if i == s.len() {
        if i > 0 {
            assert(s.last() == '/');
        }
    } else {
        assert(s.last() != '/');
        let d = s.drop_last();
        assert(forall|k: int| i <= k < d.len() ==> d[k] == s[k]);
        lemma_after_last_slash(d, i);
        assert(d.subrange(i, d.len() as int).push(s.last()) =~= s.subrange(i, s.len() as int));
    }
}

/// The file name a remote path contributes: everything after its last
/// separator, or nothing when it ends in one.
pub fn remote_file_name(remote: &str) -> (r: Option<String>)
    ensures
        after_last_slash(remote@).len() > 0 ==> (r matches Some(n) && n@ == after_last_slash(
            remote@,
        )),
        after_last_slash(remote@).len() == 0 ==> r is None,
{
    let n = remote.unicode_len();
    let mut i: usize = n;
    loop
        invariant
            i <= n,
            n == remote@.len(),
            forall|k: int| i <= k < n ==> remote@[k] != '/',
        ensures
            i <= n,
            n == remote@.len(),
            forall|k: int| i <= k < n ==> remote@[k] != '/',
            i == 0 || remote@[i - 1] == '/',
        decreases i,
    {
        if i == 0 {
            break;
        }
        if remote.get_char(i - 1) == '/' {
            break;
        }
        i = i - 1;
    }
    proof {
        lemma_after_last_slash(remote@, i as int);
    }
    if i == n {
        None
    } else {
        Some(String::from_str(remote.substring_char(i, n)))
    }
}

/// Where a download lands: in the directory under the remote's file name,
/// or at the given path itself.
#[derive(Debug)]
pub enum PullPlan {
    IntoDirectory(String),
    AsGiven,
}

/// Decides a one-shot download: recursive transfer is refused outright; a
/// directory destination takes the remote's file name, which must exist;
/// any other destination is used as given.
pub fn plan_pull(remote: &str, local_is_dir: bool, recursive: bool) -> (r: Result<
    PullPlan,
    Error,
>)
    ensures
        recursive ==> (r matches Err(e) && e matches Error::Mtp(m) && m@
            == "Recursive download not yet implemented"@),
        !recursive && !local_is_dir ==> (r matches Ok(p) && p is AsGiven),
        !recursive && local_is_dir ==> (if after_last_slash(remote@).len() > 0 {
            r matches Ok(p) && p matches PullPlan::IntoDirectory(name) && name@
                == after_last_slash(remote@)
        } else {
            r matches Err(e) && e matches Error::InvalidPath(m) && m@ == "Invalid remote path"@
        }),
{
    if recursive {
        return Err(Error::Mtp(String::from_str("Recursive download not yet implemented")));
    }
    if !local_is_dir {
        return Ok(PullPlan::AsGiven);
    }
    match remote_file_name(remote) {
        Some(name) => Ok(PullPlan::IntoDirectory(name)),
        None => Err(Error::InvalidPath(String::from_str("Invalid remote path"))),
    }
}

} // verus!
