//! The server's side of a data connection: what it records for a new file,
//! when it takes a fragment of an upload, when an upload is complete, and
//! how it answers a folder check.
use vstd::prelude::*;

use crate::calendar::compact_date_spec;
use crate::calendar::is_local_date_text;
use crate::calendar::today_stamp;
use crate::records::FileItem;
use crate::text::all_digits;
use crate::text::format_i32;
use crate::text::is_digit;
use crate::text::format_int;
use crate::text::push_str;
use crate::text::string_from;

verus! {

/// The entry the server stores for a registered file. The fragment count is
/// stored negated: the upload has not finished yet.
pub fn registration(
    name: String,
    path: String,
    attr: String,
    noa: i32,
    is_folder: bool,
    date: String,
) -> (r: FileItem)
    requires
        noa != i32::MIN,
    ensures
        r.id == 0,
        r.name@ == name@,
        r.path@ == path@,
        r.attr@ == attr@,
        r.time@ == date@,
        r.noa == -noa,
        r.is_folder == is_folder,
{
    FileItem::init_2(name, path, attr, date, -noa, is_folder)
}

/// [`registration`] stamped with today's date (`YYYYMMDD`).
pub fn register_file(name: String, path: String, attr: String, noa: i32, is_folder: bool) -> (r:
    FileItem)
    requires
        noa != i32::MIN,
    ensures
        r.id == 0,
        r.name@ == name@,
        r.path@ == path@,
        r.attr@ == attr@,
        r.time@.len() == 8,
        exists|s: Seq<char>| is_local_date_text(s) && r.time@ == compact_date_spec(s),
        is_digit(r.time@[0]) ==> all_digits(r.time@),
        r.noa == -noa,
        r.is_folder == is_folder,
{
    let date = today_stamp();
    registration(name, path, attr, noa, is_folder, date)
}

/// Whether the server takes fragment `num` of `count` for the stored entry
/// `file`: the entry must await exactly `count` fragments and `num` must lie
/// in `[0, count)`.
pub fn fragment_accepted(file: &FileItem, num: i32, count: i32) -> (b: bool)
    requires
        count != i32::MIN,
    ensures
        b == (file.noa == -count && 0 <= num < count),
{
    !(file.noa != -count || num >= count || num < 0)
}

/// The name of fragment `num` of file `file_id`.
pub open spec fn fragment_name_spec(file_id: int, num: int) -> int {
    file_id * 100 + num
}

/// Fragment names tell files and fragments apart as long as a file has at
/// most 100 fragments: two fragments with numbers below 100 share a name only
/// if they are the same fragment of the same file.
pub proof fn lemma_fragment_names_distinct(f1: int, k1: int, f2: int, k2: int)
    requires
        0 <= k1 < 100,
        0 <= k2 < 100,
        fragment_name_spec(f1, k1) == fragment_name_spec(f2, k2),
    ensures
        f1 == f2,
        k1 == k2,
{
    assert(f1 == f2) by (nonlinear_arith)
        requires
            0 <= k1 < 100,
            0 <= k2 < 100,
            f1 * 100 + k1 == f2 * 100 + k2,
    ;
}

pub fn fragment_name(file_id: i32, num: i32) -> (r: i32)
    requires
        i32::MIN <= fragment_name_spec(file_id as int, num as int) <= i32::MAX,
        i32::MIN <= file_id * 100 <= i32::MAX,
    ensures
        r == fragment_name_spec(file_id as int, num as int),
{
    file_id * 100 + num
}

/// The file name under which fragment `num` of file `file_id` is kept.
pub fn fragment_file_name(file_id: i32, num: i32) -> (r: String)
    requires
        i32::MIN <= fragment_name_spec(file_id as int, num as int) <= i32::MAX,
        i32::MIN <= file_id * 100 <= i32::MAX,
    ensures
        r@ == format_int(fragment_name_spec(file_id as int, num as int)),
{
    format_i32(fragment_name(file_id, num))
}

/// The names of all fragments of file `file_id` with `count` fragments, in
/// order: the fragments to drop when an upload fails.
pub fn fragment_names(file_id: i32, count: i32) -> (r: Vec<i32>)
    requires
        i32::MIN <= file_id * 100,
        count > 0 ==> file_id * 100 + count - 1 <= i32::MAX,
    ensures
        r@.len() == if count > 0 {
            count as int
        } else {
            0
        },
        forall|k: int| 0 <= k < r@.len() ==> #[trigger] r@[k] == fragment_name_spec(file_id as int, k),
{
    let mut r: Vec<i32> = Vec::new();
    let mut i: i32 = 0;
    while i < count
        invariant
            0 <= i,
            count > 0 ==> i <= count,
            count <= 0 ==> i == 0,
            i32::MIN <= file_id * 100,
            count > 0 ==> file_id * 100 + count - 1 <= i32::MAX,
            r@.len() == i,
            forall|k: int| 0 <= k < i ==> #[trigger] r@[k] == fragment_name_spec(file_id as int, k),
        decreases count - i,
    {
        r.push(file_id * 100 + i);
        i = i + 1;
    }
    r
}

/// Whether fragment `num` of `count` is the last one of the upload.
pub fn is_last_fragment(num: i32, count: i32) -> (b: bool)
    requires
        count != i32::MIN,
    ensures
        b == (num == count - 1),
{
    num == count - 1
}

/// Whether an upload can complete: the server holds as many fragments of the
/// file as the upload announced.
pub fn all_fragments_stored(stored: i32, count: i32) -> (b: bool)
    ensures
        b == (stored == count),
{
    stored == count
}

/// The entry of a file whose upload completed: it now has `count` fragments.
pub fn completed(file: FileItem, count: i32) -> (r: FileItem)
    ensures
        r == (FileItem { noa: count, ..file }),
{
    FileItem { noa: count, ..file }
}

/// The path of a fragment in a server folder: the folder text followed by
/// the fragment's name.
pub fn store_path(folder: &str, fid: i32) -> (r: String)
    ensures
        r@ == folder@ + format_int(fid as int),
{
    let mut r = string_from(folder);
    let f = format_i32(fid);
    push_str(&mut r, f.as_str());
    r
}

// ---------------------------------------------------------------------------
// Folder checks
// ---------------------------------------------------------------------------

/// What to do for one folder a client watches.
pub enum FolderStep {
    /// The folder is unknown: store this entry for it.
    Register(FileItem),
    /// A file that is not a folder has that name: the folder check stops.
    Conflict,
    /// The folder is known.
    Known,
}

/// The `i`-th folder of a check: its path and its name, as the fields after
/// the count give them in pairs. `None` where the line holds no such pair.
pub fn folder_entry(entries: &Vec<String>, i: i32) -> (r: Option<(String, String)>)
    requires
        0 <= i,
    ensures
        2 * i + 1 < entries@.len() ==> (r matches Some((p, n)) && p@ == entries@[2 * i]@ && n@
            == entries@[2 * i + 1]@),
        2 * i + 1 >= entries@.len() ==> r is None,
{
    let a: usize = 2 * (i as usize);
    if a + 1 < entries.len() {
        let p = entries[a].clone();
        let n = entries[a + 1].clone();
        Some((p, n))
    } else {
        None
    }
}

/// Decides for one folder `name` under `path`, given what the file table
/// holds under that path and name (`existing`, id 0 when nothing).
pub fn check_folder_entry(existing: &FileItem, name: String, path: String, date: String) -> (r:
    FolderStep)
    ensures
        existing.id == 0 ==> (r matches FolderStep::Register(f) && f.id == 0 && f.name@ == name@
            && f.path@ == path@ && f.attr@ == seq!['r', 'w'] && f.time@ == date@ && f.noa == 0
            && f.is_folder),
        existing.id != 0 && !existing.is_folder ==> r is Conflict,
        existing.id != 0 && existing.is_folder ==> r is Known,
{
    if existing.id == 0 {
        let rw = string_from("rw");
        proof {
            reveal_strlit("rw");
            assert(rw@ =~= seq!['r', 'w']);
        }
        FolderStep::Register(FileItem::init_2(name, path, rw, date, 0, true))
    } else if !existing.is_folder {
        FolderStep::Conflict
    } else {
        FolderStep::Known
    }
}

/// Whether storing a folder entry failed (the table answered a negative id).
pub fn folder_store_failed(result: i32) -> (b: bool)
    ensures
        b == (result < 0),
{
    result < 0
}

/// Whether a folder check stops after the step for one folder: at a name
/// that a file holds, or where storing the new folder's entry failed
/// (`store_failed`, which only a [`FolderStep::Register`] step consults).
pub fn folder_check_stops(step: &FolderStep, store_failed: bool) -> (stop: bool)
    ensures
        stop == match step {
            FolderStep::Register(_) => store_failed,
            FolderStep::Conflict => true,
            FolderStep::Known => false,
        },
{
    match step {
        FolderStep::Register(_) => store_failed,
        FolderStep::Conflict => true,
        FolderStep::Known => false,
    }
}

/// The server's answer to a folder check of `count` folders. The server
/// acknowledges a check of exactly one folder and answers `ERROR!` to any
/// other count, whatever the individual folders gave.
pub fn check_folder_reply(count: i32) -> (r: String)
    ensures
        count == 1 ==> r@ == seq!['r', 'e', 'c', 'e', 'i', 'v', 'e', 'd', '!', '\n'],
        count != 1 ==> r@ == seq!['E', 'R', 'R', 'O', 'R', '!', '\n'],
{
    let mut i: i32 = 0;
    i = i + 1;
    if i == count {
        let r = string_from("received!\n");
        proof {
            reveal_strlit("received!\n");
            assert(r@ =~= seq!['r', 'e', 'c', 'e', 'i', 'v', 'e', 'd', '!', '\n']);
        }
        r
    } else {
        let r = string_from("ERROR!\n");
        proof {
            reveal_strlit("ERROR!\n");
            assert(r@ =~= seq!['E', 'R', 'R', 'O', 'R', '!', '\n']);
        }
        r
    }
}

} // verus!
