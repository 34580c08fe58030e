//! The table of files as a sequence of rows: what it means for the table
//! to have a file, what is left of it when rows go, and the times of its
//! files in order.

use vstd::prelude::*;
use crate::inventory::ascending;

verus! {

/// A row of the table of files, as mathematical values.
pub struct FileRow {
    pub type_id: i64,
    pub site_id: i64,
    pub location_id: i64,
    pub init_time: i64,
    pub file_name: Seq<char>,
}

/// Whether the row is the file of this site and type for this time.
pub open spec fn is_file(row: FileRow, site_id: i64, type_id: i64, init_time: i64) -> bool {
    row.site_id == site_id && row.type_id == type_id && row.init_time == init_time
}

/// Whether the table has a file of this site and type for this time.
pub open spec fn has_file(files: Seq<FileRow>, site_id: i64, type_id: i64, init_time: i64) -> bool {
    exists|k: int| 0 <= k < files.len() && is_file(#[trigger] files[k], site_id, type_id, init_time)
}

/// The place of the file of this site and type for this time.
pub open spec fn file_position(
    files: Seq<FileRow>,
    site_id: i64,
    type_id: i64,
    init_time: i64,
) -> int {
    choose|k: int| 0 <= k < files.len() && is_file(#[trigger] files[k], site_id, type_id, init_time)
}

/// Whether the table has a file of this site and type, for any time.
pub open spec fn has_files(files: Seq<FileRow>, site_id: i64, type_id: i64) -> bool {
    exists|k: int|
        0 <= k < files.len() && (#[trigger] files[k]).site_id == site_id && files[k].type_id
            == type_id
}

/// Whether a row names this blob.
pub open spec fn names_blob(files: Seq<FileRow>, name: Seq<char>) -> bool {
    exists|k: int| 0 <= k < files.len() && (#[trigger] files[k]).file_name == name
}

/// The place of the row that names this blob.
pub open spec fn name_position(files: Seq<FileRow>, name: Seq<char>) -> int {
    choose|k: int| 0 <= k < files.len() && (#[trigger] files[k]).file_name == name
}

/// The table without the file of this site and type for this time, the
/// others in their order.
pub open spec fn files_without(
    files: Seq<FileRow>,
    site_id: i64,
    type_id: i64,
    init_time: i64,
) -> Seq<FileRow> {
    if has_file(files, site_id, type_id, init_time) {
        files.remove(file_position(files, site_id, type_id, init_time))
    } else {
        files
    }
}

/// The table without the row that names this blob, the others in their
/// order.
pub open spec fn files_not_naming(files: Seq<FileRow>, name: Seq<char>) -> Seq<FileRow> {
    if names_blob(files, name) {
        files.remove(name_position(files, name))
    } else {
        files
    }
}

/// The table without the rows that conflict with `row`, the others in
/// their order.
pub open spec fn without_conflicts(files: Seq<FileRow>, row: FileRow) -> Seq<FileRow> {
    files_not_naming(
        files_without(files, row.site_id, row.type_id, row.init_time),
        row.file_name,
    )
}

/// The table once `row` has been put in, in place of whatever conflicts
/// with it.
pub open spec fn files_with(files: Seq<FileRow>, row: FileRow) -> Seq<FileRow> {
    without_conflicts(files, row).push(row)
}

/// Whether no two rows are for the same site, type and time.
pub open spec fn keys_differ(files: Seq<FileRow>) -> bool {
    forall|k: int, l: int|
        0 <= k < l < files.len() ==> !is_file(
            #[trigger] files[k],
            (#[trigger] files[l]).site_id,
            files[l].type_id,
            files[l].init_time,
        )
}

/// Whether no two rows name the same blob.
pub open spec fn names_differ(files: Seq<FileRow>) -> bool {
    forall|k: int, l: int|
        0 <= k < l < files.len() ==> (#[trigger] files[k]).file_name
            != (#[trigger] files[l]).file_name
}

/// Where keys differ, a row for a key is the row at `file_position`.
pub proof fn lemma_file_position(
    files: Seq<FileRow>,
    site_id: i64,
    type_id: i64,
    init_time: i64,
    k: int,
)
    requires
        keys_differ(files),
        0 <= k < files.len(),
        is_file(files[k], site_id, type_id, init_time),
    ensures
        has_file(files, site_id, type_id, init_time),
        file_position(files, site_id, type_id, init_time) == k,
{
    let l = file_position(files, site_id, type_id, init_time);
    if k < l {
        assert(!is_file(files[k], files[l].site_id, files[l].type_id, files[l].init_time));
    }
    if l < k {
        assert(!is_file(files[l], files[k].site_id, files[k].type_id, files[k].init_time));
    }
}

/// Where names differ, a row that names a blob is the row at
/// `name_position`.
pub proof fn lemma_name_position(files: Seq<FileRow>, name: Seq<char>, k: int)
    requires
        names_differ(files),
        0 <= k < files.len(),
        files[k].file_name == name,
    ensures
        names_blob(files, name),
        name_position(files, name) == k,
{
    let l = name_position(files, name);
    if k < l {
        assert(files[k].file_name != files[l].file_name);
    }
    if l < k {
        assert(files[l].file_name != files[k].file_name);
    }
}

/// A table of files without one of its rows: the rows that are left are
/// rows of the table, and a row of the table is left unless it is the one
/// taken out.
pub proof fn lemma_rows_left(files: Seq<FileRow>, k: int)
    requires
        0 <= k < files.len(),
    ensures
        files.remove(k).len() == files.len() - 1,
        forall|i: int| 0 <= i < k ==> #[trigger] files.remove(k)[i] == files[i],
        forall|i: int| k <= i < files.len() - 1 ==> #[trigger] files.remove(k)[i] == files[i + 1],
        keys_differ(files) ==> keys_differ(files.remove(k)),
        names_differ(files) ==> names_differ(files.remove(k)),
{
    let left = files.remove(k);
    if keys_differ(files) {
        assert forall|a: int, b: int| 0 <= a < b < left.len() implies !is_file(
            #[trigger] left[a],
            (#[trigger] left[b]).site_id,
            left[b].type_id,
            left[b].init_time,
        ) by {
            let a0 = if a < k { a } else { a + 1 };
            let b0 = if b < k { b } else { b + 1 };
            assert(!is_file(files[a0], files[b0].site_id, files[b0].type_id, files[b0].init_time));
        }
    }
    if names_differ(files) {
        assert forall|a: int, b: int| 0 <= a < b < left.len() implies (#[trigger] left[a]).file_name
            != (#[trigger] left[b]).file_name by {
            let a0 = if a < k { a } else { a + 1 };
            let b0 = if b < k { b } else { b + 1 };
            assert(files[a0].file_name != files[b0].file_name);
        }
    }
}

/// A table of files without one of its rows names a blob exactly when a
/// row other than the one taken out names it.
pub proof fn lemma_names_left(files: Seq<FileRow>, k: int, name: Seq<char>)
    requires
        0 <= k < files.len(),
    ensures
        names_blob(files.remove(k), name) ==> names_blob(files, name),
        names_blob(files, name) && files[k].file_name != name ==> names_blob(
            files.remove(k),
            name,
        ),
        names_differ(files) && files[k].file_name == name ==> !names_blob(files.remove(k), name),
{
    let left = files.remove(k);
    lemma_rows_left(files, k);
    if names_blob(left, name) {
        let i = choose|i: int| 0 <= i < left.len() && (#[trigger] left[i]).file_name == name;
        let i0 = if i < k { i } else { i + 1 };
        assert(files[i0].file_name == name);
        if names_differ(files) && files[k].file_name == name {
            if i0 < k {
                assert(files[i0].file_name != files[k].file_name);
            } else {
                assert(files[k].file_name != files[i0].file_name);
            }
        }
    }
    if names_blob(files, name) && files[k].file_name != name {
        let i = choose|i: int| 0 <= i < files.len() && (#[trigger] files[i]).file_name == name;
        let i1 = if i < k { i } else { i - 1 };
        assert(left[i1].file_name == name);
    }
}

/// A table of files without one of its rows has a file for a key exactly
/// when a row other than the one taken out is for it.
pub proof fn lemma_files_left(
    files: Seq<FileRow>,
    k: int,
    site_id: i64,
    type_id: i64,
    init_time: i64,
)
    requires
        0 <= k < files.len(),
    ensures
        has_file(files.remove(k), site_id, type_id, init_time) ==> has_file(
            files,
            site_id,
            type_id,
            init_time,
        ),
        has_file(files, site_id, type_id, init_time) && !is_file(
            files[k],
            site_id,
            type_id,
            init_time,
        ) ==> has_file(files.remove(k), site_id, type_id, init_time),
        keys_differ(files) && is_file(files[k], site_id, type_id, init_time) ==> !has_file(
            files.remove(k),
            site_id,
            type_id,
            init_time,
        ),
{
    let left = files.remove(k);
    lemma_rows_left(files, k);
    if has_file(left, site_id, type_id, init_time) {
        let i = choose|i: int|
            0 <= i < left.len() && is_file(#[trigger] left[i], site_id, type_id, init_time);
        let i0 = if i < k { i } else { i + 1 };
        assert(is_file(files[i0], site_id, type_id, init_time));
        if keys_differ(files) && is_file(files[k], site_id, type_id, init_time) {
            if i0 < k {
                assert(!is_file(files[i0], files[k].site_id, files[k].type_id, files[k].init_time));
            } else {
                assert(!is_file(files[k], files[i0].site_id, files[i0].type_id, files[i0].init_time));
            }
        }
    }
    if has_file(files, site_id, type_id, init_time) && !is_file(
        files[k],
        site_id,
        type_id,
        init_time,
    ) {
        let i = choose|i: int|
            0 <= i < files.len() && is_file(#[trigger] files[i], site_id, type_id, init_time);
        let i1 = if i < k { i } else { i - 1 };
        assert(is_file(left[i1], site_id, type_id, init_time));
    }
}

/// Whether the table has a file of this site and type from this location.
pub open spec fn has_file_from(
    files: Seq<FileRow>,
    site_id: i64,
    type_id: i64,
    location_id: i64,
) -> bool {
    exists|k: int|
        0 <= k < files.len() && (#[trigger] files[k]).site_id == site_id && files[k].type_id
            == type_id && files[k].location_id == location_id
}

/// Whether `times` holds, in ascending order, the times for which the table
/// has a file of this site and type.
pub open spec fn is_time_line(
    times: Seq<i64>,
    files: Seq<FileRow>,
    site_id: i64,
    type_id: i64,
) -> bool {
    &&& ascending(times)
    &&& forall|time: i64| #[trigger]
        times.contains(time) <==> has_file(files, site_id, type_id, time)
}

/// The times for which the table has a file of this site and type, in
/// ascending order.
pub open spec fn time_line(files: Seq<FileRow>, site_id: i64, type_id: i64) -> Seq<i64> {
    choose|times: Seq<i64>| is_time_line(times, files, site_id, type_id)
}

/// Two ascending sequences that hold the same times are the same sequence.
pub proof fn lemma_ascending_unique(a: Seq<i64>, b: Seq<i64>)
    requires
        ascending(a),
        ascending(b),
        forall|time: i64| #[trigger] a.contains(time) <==> b.contains(time),
    ensures
        a == b,
    decreases a.len(),
{
    if a.len() == 0 {
        if b.len() > 0 {
            assert(b.contains(b[0]));
            assert(a.contains(b[0]));
        }
        assert(a =~= b);
    } else {
        let last_a = a[a.len() - 1];
        assert(a.contains(last_a));
        assert(b.contains(last_a));
        let last_b = b[b.len() - 1];
        assert(b.contains(last_b));
        assert(a.contains(last_b));
        let i = choose|i: int| 0 <= i < a.len() && a[i] == last_b;
        let j = choose|j: int| 0 <= j < b.len() && b[j] == last_a;
        assert(last_a == last_b) by {
            if i < a.len() - 1 {
                assert(a[i] < a[a.len() - 1]);
            }
            if j < b.len() - 1 {
                assert(b[j] < b[b.len() - 1]);
            }
        }
        let rest_a = a.drop_last();
        let rest_b = b.drop_last();
        assert forall|time: i64| #[trigger] rest_a.contains(time) <==> rest_b.contains(time) by {
            if rest_a.contains(time) {
                let k = choose|k: int| 0 <= k < rest_a.len() && rest_a[k] == time;
                assert(a[k] == time && a[k] < a[a.len() - 1]);
                assert(a.contains(time));
                assert(b.contains(time));
                let l = choose|l: int| 0 <= l < b.len() && b[l] == time;
                assert(rest_b[l] == time);
            }
            if rest_b.contains(time) {
                let k = choose|k: int| 0 <= k < rest_b.len() && rest_b[k] == time;
                assert(b[k] == time && b[k] < b[b.len() - 1]);
                assert(b.contains(time));
                assert(a.contains(time));
                let l = choose|l: int| 0 <= l < a.len() && a[l] == time;
                assert(rest_a[l] == time);
            }
        }
        assert(ascending(rest_a)) by {
            assert forall|k: int, l: int| 0 <= k < l < rest_a.len() implies rest_a[k]
                < rest_a[l] by {
                assert(a[k] < a[l]);
            }
        }
        assert(ascending(rest_b)) by {
            assert forall|k: int, l: int| 0 <= k < l < rest_b.len() implies rest_b[k]
                < rest_b[l] by {
                assert(b[k] < b[l]);
            }
        }
        lemma_ascending_unique(rest_a, rest_b);
        assert(a =~= rest_a.push(last_a));
        assert(b =~= rest_b.push(last_b));
    }
}

/// A sequence that is a time line is the time line.
pub proof fn lemma_time_line(times: Seq<i64>, files: Seq<FileRow>, site_id: i64, type_id: i64)
    requires
        is_time_line(times, files, site_id, type_id),
    ensures
        time_line(files, site_id, type_id) == times,
{
    let chosen = time_line(files, site_id, type_id);
    assert(is_time_line(chosen, files, site_id, type_id));
    assert forall|time: i64| #[trigger] chosen.contains(time) <==> times.contains(time) by {
        assert(chosen.contains(time) <==> has_file(files, site_id, type_id, time));
        assert(times.contains(time) <==> has_file(files, site_id, type_id, time));
    }
    lemma_ascending_unique(chosen, times);
}

/// Puts a time into its place among ascending times that do not hold it.
pub fn insert_ascending(times: &mut Vec<i64>, time: i64)
    requires
        ascending(old(times)@),
        !old(times)@.contains(time),
    ensures
        ascending(final(times)@),
        forall|t: i64|
            #[trigger] final(times)@.contains(t) <==> t == time || old(times)@.contains(t),
{
    let ghost before = times@;
    let mut at: usize = 0;
    while at < times.len() && times[at] < time
        invariant
            0 <= at <= times.len(),
            times@ == before,
            forall|i: int| 0 <= i < at ==> #[trigger] before[i] < time,
        decreases times.len() - at,
    {
        at = at + 1;
    }
    times.insert(at, time);
    proof {
        let after = times@;
        assert(after == before.insert(at as int, time));
        assert forall|i: int| at < i < after.len() implies time < #[trigger] after[i] by {
            assert(after[i] == before[i - 1]);
            assert(before.contains(before[i - 1]));
            if (at as int) < i - 1 {
                assert(before[at as int] < before[i - 1]);
            }
        }
        assert forall|i: int, j: int| 0 <= i < j < after.len() implies after[i] < after[j] by {
            if i < at && j > at {
                assert(after[i] == before[i] && after[j] == before[j - 1]);
                if i < j - 1 {
                    assert(before[i] < before[j - 1]);
                }
            } else if i < at && j < at {
                assert(before[i] < before[j]);
            } else if i > at {
                assert(before[i - 1] < before[j - 1]);
            }
        }
        assert forall|t: i64| #[trigger] after.contains(t) <==> t == time || before.contains(
            t,
        ) by {
            if after.contains(t) {
                let i = choose|i: int| 0 <= i < after.len() && after[i] == t;
                if i < at {
                    assert(before[i] == t);
                } else if i > at {
                    assert(before[i - 1] == t);
                }
            }
            if before.contains(t) {
                let i = choose|i: int| 0 <= i < before.len() && before[i] == t;
                if i < at {
                    assert(after[i] == t);
                } else {
                    assert(after[i + 1] == t);
                }
            }
            if t == time {
                assert(after[at as int] == t);
            }
        }
    }
}

/// A table with one more row names a blob exactly when the new row or a
/// row of the table names it.
pub proof fn lemma_names_with(files: Seq<FileRow>, row: FileRow, name: Seq<char>)
    ensures
        names_blob(files.push(row), name) <==> row.file_name == name || names_blob(files, name),
{
    let more = files.push(row);
    if names_blob(more, name) {
        let i = choose|i: int| 0 <= i < more.len() && (#[trigger] more[i]).file_name == name;
        if i < files.len() {
            assert(files[i].file_name == name);
        }
    }
    if names_blob(files, name) {
        let i = choose|i: int| 0 <= i < files.len() && (#[trigger] files[i]).file_name == name;
        assert(more[i].file_name == name);
    }
    if row.file_name == name {
        assert(more[files.len() as int].file_name == name);
    }
}

/// A table with one more row has a file for a key exactly when the new row
/// or a row of the table is for it.
pub proof fn lemma_files_with(
    files: Seq<FileRow>,
    row: FileRow,
    site_id: i64,
    type_id: i64,
    init_time: i64,
)
    ensures
        has_file(files.push(row), site_id, type_id, init_time) <==> is_file(
            row,
            site_id,
            type_id,
            init_time,
        ) || has_file(files, site_id, type_id, init_time),
{
    let more = files.push(row);
    if has_file(more, site_id, type_id, init_time) {
        let i = choose|i: int|
            0 <= i < more.len() && is_file(#[trigger] more[i], site_id, type_id, init_time);
        if i < files.len() {
            assert(is_file(files[i], site_id, type_id, init_time));
        }
    }
    if has_file(files, site_id, type_id, init_time) {
        let i = choose|i: int|
            0 <= i < files.len() && is_file(#[trigger] files[i], site_id, type_id, init_time);
        assert(is_file(more[i], site_id, type_id, init_time));
    }
    if is_file(row, site_id, type_id, init_time) {
        assert(is_file(more[files.len() as int], site_id, type_id, init_time));
    }
}

} // verus!
