//! The block devices of the host, read from the output of `df -PB1`.

use vstd::prelude::*;
use crate::text::{
    has_prefix, join_from, joined, parse_u64, parse_u64_spec, split_char, split_on,
    split_whitespace, starts_with, trim_end_len, views, words,
};

verus! {

/// A row of `df -PB1` for a device under `/dev/`. The usage percentage is
/// kept as the text of its column, without the trailing `%`.
#[derive(Debug)]
pub struct DfRow {
    pub device: String,
    pub total_bytes: u64,
    pub used_bytes: u64,
    pub available_bytes: u64,
    pub used_percent: String,
    pub mount_point: String,
}

/// The fields of a row: device, total, used and available bytes, usage
/// percentage text and mount point.
pub type DfRowView = (Seq<char>, u64, u64, u64, Seq<char>, Seq<char>);

/// The fields of a `DfRow`.
pub open spec fn df_row_view(r: DfRow) -> DfRowView {
    (r.device@, r.total_bytes, r.used_bytes, r.available_bytes, r.used_percent@, r.mount_point@)
}

/// The row that a line of `df -PB1` describes: one of at least six words,
/// whose first names a device under `/dev/` and whose next three are byte
/// counts; the fifth is the usage percentage and the rest, joined by single
/// spaces, the mount point.
pub open spec fn df_row_of(line: Seq<char>) -> Option<DfRowView> {
    let w = words(line);
    if w.len() >= 6 && has_prefix(w[0], "/dev/"@) && parse_u64_spec(w[1]) is Some
        && parse_u64_spec(w[2]) is Some && parse_u64_spec(w[3]) is Some {
        Some(
            (
                w[0],
                parse_u64_spec(w[1])->0,
                parse_u64_spec(w[2])->0,
                parse_u64_spec(w[3])->0,
                crate::text::trim_end_char(w[4], '%'),
                joined(w.subrange(5, w.len() as int), ' '),
            ),
        )
    } else {
        None
    }
}

/// The rows that the lines describe, in order.
pub open spec fn df_rows(lines: Seq<Seq<char>>) -> Seq<DfRowView>
    decreases lines.len(),
{
    if lines.len() == 0 {
        Seq::empty()
    } else {
        let head = df_rows(lines.drop_last());
        match df_row_of(lines.last()) {
            Some(r) => head.push(r),
            None => head,
        }
    }
}

/// Reads one line of `df -PB1`.
pub fn parse_df_line(line: &str) -> (r: Option<DfRow>)
    ensures
        r is Some <==> df_row_of(line@) is Some,
        r matches Some(row) ==> df_row_view(row) == df_row_of(line@)->0,
{
    let w = split_whitespace(line);
    proof {
        reveal_strlit("/dev/");
    }
    if w.len() < 6 || !starts_with(w[0].as_str(), "/dev/") {
        return None;
    }
    assert(views(w@)[0] == w@[0]@);
    let total = parse_u64(w[1].as_str());
    let used = parse_u64(w[2].as_str());
    let available = parse_u64(w[3].as_str());
    assert(views(w@)[1] == w@[1]@);
    assert(views(w@)[2] == w@[2]@);
    assert(views(w@)[3] == w@[3]@);
    assert(views(w@)[4] == w@[4]@);
    match (total, used, available) {
        (Some(t), Some(u), Some(a)) => {
            let percent = w[4].as_str();
            let b = trim_end_len(percent, '%');
            let used_percent = String::from_str(percent.substring_char(0, b));
            let mount_point = join_from(&w, 5, ' ');
            Some(
                DfRow {
                    device: w[0].clone(),
                    total_bytes: t,
                    used_bytes: u,
                    available_bytes: a,
                    used_percent,
                    mount_point,
                },
            )
        },
        _ => None,
    }
}

/// The block devices that the output of `df -PB1` lists: every line after
/// the header that describes a device under `/dev/`, in order.
pub fn parse_df_output(output: &str) -> (r: Vec<DfRow>)
    ensures
        Seq::new(r@.len(), |k: int| df_row_view(r@[k])) == df_rows(split_on(output@, '\n').drop_first()),
{
    let lines = split_char(output, '\n');
    let ghost ls = split_on(output@, '\n');
    proof {
        crate::text::lemma_split_on_nonempty(output@, '\n');
    }
    let mut rows: Vec<DfRow> = Vec::new();
    let mut i: usize = 1;
    assert(ls.subrange(1, 1) =~= Seq::<Seq<char>>::empty());
    while i < lines.len()
        invariant
            views(lines@) == ls,
            ls.len() >= 1,
            1 <= i <= ls.len(),
            Seq::new(rows@.len(), |k: int| df_row_view(rows@[k])) == df_rows(ls.subrange(1, i as int)),
        decreases ls.len() - i,
    {
        let ghost old_rows = rows@;
        let ghost pre = ls.subrange(1, i as int);
        let ghost nxt = ls.subrange(1, i + 1);
        assert(nxt.drop_last() =~= pre);
        assert(nxt.last() == lines@[i as int]@);
        match parse_df_line(lines[i].as_str()) {
            Some(row) => {
                rows.push(row);
                assert(Seq::new(rows@.len(), |k: int| df_row_view(rows@[k])) =~= Seq::new(
                    old_rows.len(),
                    |k: int| df_row_view(old_rows[k]),
                ).push(df_row_view(rows@[rows@.len() - 1])));
            },
            None => {},
        }
        i = i + 1;
    }
    assert(ls.subrange(1, ls.len() as int) =~= ls.drop_first());
    rows
}

} // verus!
