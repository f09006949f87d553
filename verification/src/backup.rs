use vstd::prelude::*;
use vstd::string::StringExecFns;
use crate::ranking::{in_order, insert_ranked, lemma_ranked, lemma_ranked_contains, ranked, views, Ranked};
use crate::rows::{lemma_select_next, lemma_selected};
use crate::sources::now_stamp;
use crate::text::{comes_before, lemma_text_le_total, lemma_text_le_transitive, lemma_text_lt_framed};
use crate::text::{text_le, text_lt};

verus! {

/// The file that holds the store.
pub const STORE_FILE: &'static str = "kanban.db";

/// The directory, beside the store, that holds its backups.
pub const BACKUP_DIR: &'static str = "backups";

/// How many backups a start of the program leaves.
pub const STARTUP_KEEP_COUNT: usize = 7;

/// A backup of the store as it lies on disk.
#[derive(Debug, PartialEq, Eq)]
pub struct BackupInfo {
    pub filename: String,
    pub path: String,
    pub size: u64,
}

/// The mathematical value of a `BackupInfo`.
pub struct BackupInfoView {
    pub filename: Seq<char>,
    pub path: Seq<char>,
    pub size: u64,
}

impl View for BackupInfo {
    type V = BackupInfoView;

    open spec fn view(&self) -> BackupInfoView {
        BackupInfoView { filename: self.filename@, path: self.path@, size: self.size }
    }
}

impl Clone for BackupInfo {
    fn clone(&self) -> (r: Self)
        ensures
            r@ == self@,
    {
        BackupInfo { filename: self.filename.clone(), path: self.path.clone(), size: self.size }
    }
}

/// Backups are listed by file name, greatest first. A name carries the time
/// of the backup, so the latest backup of a kind comes first.
impl Ranked for BackupInfo {
    open spec fn may_precede(a: BackupInfoView, b: BackupInfoView) -> bool {
        text_le(b.filename, a.filename)
    }

    proof fn lemma_total(a: BackupInfoView, b: BackupInfoView) {
        lemma_text_le_total(a.filename, b.filename);
    }

    proof fn lemma_transitive(a: BackupInfoView, b: BackupInfoView, c: BackupInfoView) {
        lemma_text_le_transitive(c.filename, b.filename, a.filename);
    }

    fn precedes(&self, other: &Self) -> (r: bool) {
        !comes_before(self.filename.as_str(), other.filename.as_str())
    }
}

/// The name has the extension `db`: it ends in `.db`, and something stands
/// before the dot.
pub open spec fn is_backup_name(name: Seq<char>) -> bool {
    &&& name.len() >= 4
    &&& name[name.len() - 3] == '.'
    &&& name[name.len() - 2] == 'd'
    &&& name[name.len() - 1] == 'b'
}

/// Selects the files that are backups by their names.
pub open spec fn backup_by_name() -> spec_fn(BackupInfoView) -> bool {
    |b: BackupInfoView| is_backup_name(b.filename)
}

/// The backups among `files`, greatest name first.
pub open spec fn listed_backups(files: Seq<BackupInfoView>) -> Seq<BackupInfoView> {
    ranked::<BackupInfo>(files.filter(backup_by_name()))
}

/// The backups among `files` that do not belong to the `keep_count` first
/// of the listing.
pub open spec fn surplus_backups(files: Seq<BackupInfoView>, keep_count: nat) -> Seq<BackupInfoView> {
    if keep_count >= listed_backups(files).len() {
        Seq::empty()
    } else {
        listed_backups(files).skip(keep_count as int)
    }
}

/// Tells whether a file of the backup directory is a backup: whether its
/// name has the extension `db`. The files beside a backup that hold its
/// write-ahead log and shared memory are none.
pub fn is_backup_file(filename: &str) -> (r: bool)
    ensures
        r == is_backup_name(filename@),
{
    let n = filename.unicode_len();
    n >= 4 && filename.get_char(n - 3) == '.' && filename.get_char(n - 2) == 'd'
        && filename.get_char(n - 1) == 'b'
}

/// The backups among the files of the backup directory, greatest name
/// first; files with the same name in the order in which they were given.
pub fn list_backups(files: &Vec<BackupInfo>) -> (out: Vec<BackupInfo>)
    ensures
        views(out@) == listed_backups(views(files@)),
        in_order::<BackupInfo>(views(out@)),
        forall|b: BackupInfoView| #[trigger]
            views(out@).contains(b) <==> views(files@).contains(b) && is_backup_name(b.filename),
{
    let ghost all = views(files@);
    let mut out: Vec<BackupInfo> = Vec::new();
    let mut i: usize = 0;
    while i < files.len()
        invariant
            i <= files.len(),
            all == views(files@),
            views(out@) == ranked::<BackupInfo>(all.take(i as int).filter(backup_by_name())),
        decreases files.len() - i,
    {
        if is_backup_file(files[i].filename.as_str()) {
            insert_ranked(&mut out, files[i].clone());
        }
        proof {
            let seen = all.take(i as int).filter(backup_by_name());
            lemma_select_next(all, backup_by_name(), i as int);
            assert(seen.push(all[i as int]).drop_last() =~= seen);
        }
        i = i + 1;
    }
    proof {
        assert(all.take(i as int) =~= all);
        lemma_listed_backups(all);
    }
    out
}

/// The listing of backups is in order and holds exactly the given files
/// whose names have the extension `db`.
pub proof fn lemma_listed_backups(files: Seq<BackupInfoView>)
    ensures
        in_order::<BackupInfo>(listed_backups(files)),
        forall|b: BackupInfoView| #[trigger]
            listed_backups(files).contains(b) <==> files.contains(b) && is_backup_name(b.filename),
{
    lemma_ranked::<BackupInfo>(files.filter(backup_by_name()));
    assert forall|b: BackupInfoView| #[trigger]
        listed_backups(files).contains(b) <==> files.contains(b) && is_backup_name(
            b.filename,
        ) by {
        lemma_ranked_contains::<BackupInfo>(files.filter(backup_by_name()), b);
        lemma_selected(files, backup_by_name(), b);
    }
}

/// The backups to delete so that the `keep_count` with the greatest names
/// stay: those behind the first `keep_count` of the listing, in its order.
pub fn cleanup_old_backups(files: &Vec<BackupInfo>, keep_count: usize) -> (out: Vec<BackupInfo>)
    ensures
        views(out@) == surplus_backups(views(files@), keep_count as nat),
{
    let mut listing = list_backups(files);
    if listing.len() <= keep_count {
        return Vec::new();
    }
    let out = listing.split_off(keep_count);
    proof {
        let l = listed_backups(views(files@));
        assert(views(out@) =~= l.skip(keep_count as int));
    }
    out
}

/// Cleaning up deletes the backups beyond the `keep_count` with the greatest
/// names, and no others: of more than `keep_count` backups it deletes all
/// but `keep_count`, and no backup that stays has a name before the name of
/// one that goes.
pub proof fn lemma_cleanup_keeps_latest(files: Seq<BackupInfoView>, keep_count: nat)
    ensures
        listed_backups(files).len() == files.filter(backup_by_name()).len(),
        listed_backups(files).len() > keep_count ==> surplus_backups(files, keep_count).len()
            == listed_backups(files).len() - keep_count,
        listed_backups(files).len() <= keep_count ==> surplus_backups(files, keep_count).len() == 0,
        listed_backups(files).len() > keep_count ==> listed_backups(files) == listed_backups(
            files,
        ).take(keep_count as int) + surplus_backups(files, keep_count),
        forall|i: int, j: int|
            0 <= i < keep_count && i < listed_backups(files).len() && 0 <= j < surplus_backups(
                files,
                keep_count,
            ).len() ==> text_le(
                (#[trigger] surplus_backups(files, keep_count)[j]).filename,
                (#[trigger] listed_backups(files)[i]).filename,
            ),
{
    let listing = listed_backups(files);
    lemma_ranked::<BackupInfo>(files.filter(backup_by_name()));
    if listing.len() > keep_count {
        assert(listing =~= listing.take(keep_count as int) + listing.skip(keep_count as int));
        assert forall|i: int, j: int|
            0 <= i < keep_count && 0 <= j < surplus_backups(files, keep_count).len() implies text_le(
            (#[trigger] surplus_backups(files, keep_count)[j]).filename,
            (#[trigger] listing[i]).filename,
        ) by {
            assert(surplus_backups(files, keep_count)[j] == listing[keep_count + j]);
            assert(BackupInfo::may_precede(listing[i], listing[keep_count + j]));
        }
    }
}

/// The path of the file that holds the write-ahead log of the store, or of
/// the backup, at `path`.
pub fn wal_path(path: &str) -> (r: String)
    ensures
        r@ == path@ + "-wal"@,
{
    String::from_str(path).concat("-wal")
}

/// The path of the file that holds the shared memory of the store, or of
/// the backup, at `path`.
pub fn shm_path(path: &str) -> (r: String)
    ensures
        r@ == path@ + "-shm"@,
{
    String::from_str(path).concat("-shm")
}

/// What a backup is taken for.
#[derive(Debug, Clone, Copy, PartialEq, Eq, Structural)]
pub enum BackupKind {
    /// On demand.
    Manual,
    /// At the start of the program, before the store is opened.
    Startup,
}

impl BackupKind {
    /// What the names of the backups of this kind begin with.
    pub open spec fn prefix(self) -> Seq<char> {
        match self {
            BackupKind::Manual => "kanban_backup_"@,
            BackupKind::Startup => "kanban_startup_"@,
        }
    }
}

/// The file name of the backup of the given kind taken at the time that
/// `stamp` spells.
pub open spec fn backup_name(kind: BackupKind, stamp: Seq<char>) -> Seq<char> {
    kind.prefix() + stamp + ".db"@
}

/// The file name of the backup of the given kind taken at the time that
/// `stamp` spells.
pub fn backup_filename(kind: BackupKind, stamp: &str) -> (name: String)
    ensures
        name@ == backup_name(kind, stamp@),
{
    let prefix = match kind {
        BackupKind::Manual => "kanban_backup_",
        BackupKind::Startup => "kanban_startup_",
    };
    String::from_str(prefix).concat(stamp).concat(".db")
}

/// Of two backups of one kind, the one with the later stamp has the greater
/// name, where the stamps are equally long in bytes: in the listing the
/// later backup comes first.
pub proof fn lemma_later_backup_sorts_after(kind: BackupKind, earlier: Seq<char>, later: Seq<char>)
    requires
        text_lt(earlier, later),
        vstd::utf8::encode_utf8(earlier).len() == vstd::utf8::encode_utf8(later).len(),
    ensures
        text_lt(backup_name(kind, earlier), backup_name(kind, later)),
{
    lemma_text_lt_framed(kind.prefix(), earlier, later, ".db"@);
}

/// The text is a stamp as the clock writes it: the digits of year, month and
/// day, an underscore, and the digits of hour, minute and second.
pub open spec fn is_stamp(stamp: Seq<char>) -> bool {
    &&& stamp.len() == 15
    &&& stamp[8] == '_'
    &&& forall|i: int| 0 <= i < 15 && i != 8 ==> '0' <= #[trigger] stamp[i] <= '9'
}

/// Of two backups of one kind with stamps as the clock writes them, the one
/// with the later stamp has the greater name.
pub proof fn lemma_later_stamp_sorts_after(kind: BackupKind, earlier: Seq<char>, later: Seq<char>)
    requires
        is_stamp(earlier),
        is_stamp(later),
        text_lt(earlier, later),
    ensures
        text_lt(backup_name(kind, earlier), backup_name(kind, later)),
{
    assert(vstd::utf8::is_ascii_chars(earlier)) by {
        assert forall|i: int| 0 <= i < earlier.len() implies '\0' <= #[trigger] earlier[i]
            <= '\u{7f}' by {
            assert(i != 8 ==> '0' <= earlier[i] <= '9');
        }
    }
    assert(vstd::utf8::is_ascii_chars(later)) by {
        assert forall|i: int| 0 <= i < later.len() implies '\0' <= #[trigger] later[i]
            <= '\u{7f}' by {
            assert(i != 8 ==> '0' <= later[i] <= '9');
        }
    }
    vstd::utf8::is_ascii_chars_encode_utf8(earlier);
    vstd::utf8::is_ascii_chars_encode_utf8(later);
    lemma_later_backup_sorts_after(kind, earlier, later);
}

/// Names a backup of the given kind after the time of the call.
pub fn create_backup(kind: BackupKind) -> (name: String)
    ensures
        exists|stamp: Seq<char>| name@ == #[trigger] backup_name(kind, stamp),
{
    let stamp = now_stamp();
    backup_filename(kind, stamp.as_str())
}

/// Reads the report of the store's own consistency check: the store is
/// sound exactly if the report is the word `ok`.
pub fn check_database_integrity(report: &String) -> (sound: bool)
    ensures
        sound == (report@ == "ok"@),
{
    *report == "ok".to_owned()
}

} // verus!
