use vstd::prelude::*;

use crate::error::KvsError;
use crate::keydir::{is_compacted, KeyDir};
use crate::record::{
    encode_record, encode_spec, has_no_break, lemma_decode_encode, lemma_encode_has_no_break, Record,
    RecordView,
};
use crate::replay::{
    apply, decode_lines, encode_lines, decode_log, encode_log, line_views, record_views, replay, replay_spec,
    store_map,
};

verus! {

/// `ls` is a compacted log that stands for `m`: exactly the lines of one `Set` record per
/// live key and nothing else, none of them holding a line break.
pub open spec fn is_compaction_of(ls: Seq<Seq<char>>, m: Map<Seq<char>, Seq<char>>) -> bool {
    &&& decode_lines(ls) matches Some(rs) && is_compacted(rs) && replay_spec(rs) == m && ls
        == encode_lines(rs)
    &&& forall|i: int| 0 <= i < ls.len() ==> has_no_break(#[trigger] ls[i])
}

/// What a mutating call writes: first the record appended to the log, then the whole log
/// rewritten in compacted form.
pub struct LogWrite {
    pub append: String,
    pub compacted: Vec<String>,
}

/// Lines written for a sequence of records read back as those records.
pub proof fn lemma_log_round_trip(rs: Seq<RecordView>)
    ensures
        decode_lines(encode_lines(rs)) == Some(rs),
    decreases rs.len(),
{
    if rs.len() > 0 {
        let ls = encode_lines(rs);
        lemma_log_round_trip(rs.drop_last());
        assert(ls.drop_last() =~= encode_lines(rs.drop_last()));
        lemma_decode_encode(rs.last());
        assert(rs.drop_last().push(rs.last()) =~= rs);
    }
}

/// The compacted log of a key directory.
pub fn compact_lines(dir: &KeyDir) -> (lines: Vec<String>)
    requires
        dir.wf(),
    ensures
        is_compaction_of(line_views(lines@), dir@),
{
    let recs = dir.to_records();
    let lines = encode_log(&recs);
    proof {
        lemma_log_round_trip(record_views(recs@));
        assert forall|i: int| 0 <= i < lines.len() implies has_no_break(#[trigger] line_views(lines@)[i]) by {
            lemma_encode_has_no_break(record_views(recs@)[i]);
        }
    }
    lines
}

/// Replays a log's lines into a key directory.
pub fn load(lines: &Vec<String>) -> (r: Result<KeyDir, KvsError>)
    ensures
        match store_map(line_views(lines@)) {
            Some(m) => r matches Ok(d) && d.wf() && d@ == m,
            None => r matches Err(e) && e is Serde,
        },
{
    match decode_log(lines) {
        Ok(recs) => Ok(replay(&recs)),
        Err(e) => Err(e),
    }
}

/// Appending a record's line to a well-formed log applies that record to what it stands for.
pub proof fn lemma_append_line(ls: Seq<Seq<char>>, r: RecordView)
    requires
        store_map(ls) is Some,
    ensures
        store_map(ls.push(encode_spec(r))) == Some(apply(store_map(ls)->0, r)),
{
    lemma_decode_encode(r);
    assert(ls.push(encode_spec(r)).drop_last() =~= ls);
    let rs = decode_lines(ls)->0;
    assert(rs.push(r).drop_last() =~= rs);
}

/// A read: the current value of `key`, and the compacted log that the read leaves behind.
pub fn get_step(lines: &Vec<String>, key: &str) -> (r: Result<(Option<String>, Vec<String>), KvsError>)
    ensures
        match store_map(line_views(lines@)) {
            Some(m) => r matches Ok((v, c)) && is_compaction_of(line_views(c@), m) && match v {
                Some(s) => m.contains_key(key@) && m[key@] == s@,
                None => !m.contains_key(key@),
            },
            None => r matches Err(e) && e is Serde,
        },
{
    let dir = load(lines)?;
    let value = dir.get(key);
    let compacted = compact_lines(&dir);
    Ok((value, compacted))
}

/// A write of `value` under `key`: the `Set` line to append, and the compacted log after it.
/// The key directory is rebuilt from the log first, so that a store reopened on an existing
/// log compacts everything the log holds, not only what this process has written.
pub fn set_step(lines: &Vec<String>, key: String, value: String) -> (r: Result<LogWrite, KvsError>)
    ensures
        match store_map(line_views(lines@)) {
            Some(m) => r matches Ok(w) && w.append@ == encode_spec(RecordView::Put(key@, value@))
                && store_map(line_views(lines@).push(w.append@)) == Some(m.insert(key@, value@))
                && is_compaction_of(line_views(w.compacted@), m.insert(key@, value@)),
            None => r matches Err(e) && e is Serde,
        },
{
    let mut dir = load(lines)?;
    let rec = Record::Put { key: key.clone(), value: value.clone() };
    let append = encode_record(&rec);
    dir.insert(key, value);
    let compacted = compact_lines(&dir);
    proof {
        lemma_append_line(line_views(lines@), rec@);
    }
    Ok(LogWrite { append, compacted })
}

/// A removal of `key`: the `Remove` line to append and the compacted log after it, or
/// `KeyNotFound` when the key is not live, in which case nothing is to be written.
pub fn remove_step(lines: &Vec<String>, key: &str) -> (r: Result<LogWrite, KvsError>)
    ensures
        match store_map(line_views(lines@)) {
            Some(m) => if m.contains_key(key@) {
                r matches Ok(w) && w.append@ == encode_spec(RecordView::Remove(key@))
                    && store_map(line_views(lines@).push(w.append@)) == Some(m.remove(key@))
                    && is_compaction_of(line_views(w.compacted@), m.remove(key@))
            } else {
                r matches Err(e) && e is KeyNotFound
            },
            None => r matches Err(e) && e is Serde,
        },
{
    let mut dir = load(lines)?;
    if !dir.remove(key) {
        return Err(KvsError::KeyNotFound);
    }
    let rec = Record::Remove { key: key.to_string() };
    let append = encode_record(&rec);
    let compacted = compact_lines(&dir);
    proof {
        lemma_append_line(line_views(lines@), rec@);
    }
    Ok(LogWrite { append, compacted })
}

} // verus!
