use vstd::prelude::*;

use crate::error::KvsError;
use crate::keydir::KeyDir;
use crate::record::{decode_record, decode_spec, encode_record, encode_spec, Record, RecordView};

verus! {

pub open spec fn record_views(rs: Seq<Record>) -> Seq<RecordView> {
    rs.map_values(|r: Record| r@)
}

pub open spec fn line_views(ls: Seq<String>) -> Seq<Seq<char>> {
    ls.map_values(|l: String| l@)
}

/// The lines that stand for these records, one per record, in order.
pub open spec fn encode_lines(rs: Seq<RecordView>) -> Seq<Seq<char>> {
    rs.map_values(|r: RecordView| encode_spec(r))
}

/// The effect of one record on the key directory.
pub open spec fn apply(m: Map<Seq<char>, Seq<char>>, r: RecordView) -> Map<Seq<char>, Seq<char>> {
    match r {
        RecordView::Put(k, v) => m.insert(k, v),
        RecordView::Remove(k) => m.remove(k),
    }
}

/// The key directory that a sequence of records leaves, applied in order to an empty map.
pub open spec fn replay_spec(rs: Seq<RecordView>) -> Map<Seq<char>, Seq<char>>
    decreases rs.len(),
{
    if rs.len() == 0 {
        Map::empty()
    } else {
        apply(replay_spec(rs.drop_last()), rs.last())
    }
}

/// The records of a log's lines, if every line is well formed.
pub open spec fn decode_lines(ls: Seq<Seq<char>>) -> Option<Seq<RecordView>>
    decreases ls.len(),
{
    if ls.len() == 0 {
        Some(Seq::empty())
    } else {
        match (decode_lines(ls.drop_last()), decode_spec(ls.last())) {
            (Some(rs), Some(r)) => Some(rs.push(r)),
            _ => None,
        }
    }
}

/// The key directory that a log's lines stand for, if every line is well formed.
pub open spec fn store_map(ls: Seq<Seq<char>>) -> Option<Map<Seq<char>, Seq<char>>> {
    match decode_lines(ls) {
        Some(rs) => Some(replay_spec(rs)),
        None => None,
    }
}

/// Rebuilds the key directory from records, in order.
pub fn replay(records: &Vec<Record>) -> (d: KeyDir)
    ensures
        d.wf(),
        d@ == replay_spec(record_views(records@)),
{
    let mut d = KeyDir::new();
    let mut i: usize = 0;
    while i < records.len()
        invariant
            d.wf(),
            i <= records.len(),
            d@ == replay_spec(record_views(records@).take(i as int)),
        decreases records.len() - i,
    {
        proof {
            assert(record_views(records@).take(i + 1).drop_last() =~= record_views(records@).take(
                i as int,
            ));
        }
        match &records[i] {
            Record::Put { key, value } => {
                d.insert(key.clone(), value.clone());
            },
            Record::Remove { key } => {
                d.remove(key.as_str());
            },
        }
        i = i + 1;
    }
    assert(record_views(records@).take(i as int) =~= record_views(records@));
    d
}

/// Decodes each line of a log; the first malformed line is a `Serde` error.
pub fn decode_log(lines: &Vec<String>) -> (r: Result<Vec<Record>, KvsError>)
    ensures
        match decode_lines(line_views(lines@)) {
            Some(rs) => r matches Ok(recs) && record_views(recs@) == rs,
            None => r matches Err(e) && e is Serde,
        },
{
    let ghost ls = line_views(lines@);
    let mut recs: Vec<Record> = Vec::new();
    let mut i: usize = 0;
    while i < lines.len()
        invariant
            ls == line_views(lines@),
            i <= lines.len(),
            decode_lines(ls.take(i as int)) == Some(record_views(recs@)),
        decreases lines.len() - i,
    {
        proof {
            assert(ls.take(i + 1).drop_last() =~= ls.take(i as int));
            assert(ls.take(i + 1).last() == lines@[i as int]@);
        }
        match decode_record(lines[i].as_str()) {
            Ok(rec) => {
                let ghost before = record_views(recs@);
                recs.push(rec);
                assert(record_views(recs@) =~= before.push(rec@));
            },
            Err(e) => {
                proof {
                    lemma_decode_lines_prefix(ls, i as int + 1);
                }
                return Err(e);
            },
        }
        i = i + 1;
    }
    assert(ls.take(i as int) =~= ls);
    Ok(recs)
}

/// A log with a malformed line among its first lines is malformed.
pub proof fn lemma_decode_lines_prefix(ls: Seq<Seq<char>>, i: int)
    requires
        0 <= i <= ls.len(),
        decode_lines(ls.take(i)) is None,
    ensures
        decode_lines(ls) is None,
    decreases ls.len(),
{
    if i < ls.len() {
        assert(ls.drop_last().take(i) =~= ls.take(i));
        lemma_decode_lines_prefix(ls.drop_last(), i);
    } else {
        assert(ls.take(i) =~= ls);
    }
}

/// The lines of a log holding these records, in order.
pub fn encode_log(records: &Vec<Record>) -> (lines: Vec<String>)
    ensures
        line_views(lines@) == encode_lines(record_views(records@)),
{
    let mut lines: Vec<String> = Vec::new();
    let mut i: usize = 0;
    while i < records.len()
        invariant
            i <= records.len(),
            line_views(lines@) == encode_lines(record_views(records@).take(i as int)),
        decreases records.len() - i,
    {
        let line = encode_record(&records[i]);
        let ghost before = line_views(lines@);
        lines.push(line);
        assert(line_views(lines@) =~= before.push(encode_spec(records@[i as int]@)));
        assert(line_views(lines@) =~= encode_lines(record_views(records@).take(i + 1)));
        i = i + 1;
    }
    assert(record_views(records@).take(i as int) =~= record_views(records@));
    lines
}

} // verus!
