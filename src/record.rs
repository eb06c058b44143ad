//! The log's record format: one record per line, in a JSON-like shape
//! `{"Set":{"key":"..","value":".."}}` or `{"Remove":{"key":".."}}`. Inside the quoted
//! strings `"`, `\\`, line feed, carriage return and tab are escaped; every other character,
//! other control characters included, is written as it is, so a line is not always valid
//! JSON, and only lines of this exact shape are read back.
use vstd::prelude::*;
use vstd::string::*;

use crate::error::KvsError;

verus! {

/// One durable mutation, as it stands on one line of the log.
pub enum Record {
    Put { key: String, value: String },
    Remove { key: String },
}

/// The mathematical value of a record.
pub enum RecordView {
    Put(Seq<char>, Seq<char>),
    Remove(Seq<char>),
}

impl View for Record {
    type V = RecordView;

    open spec fn view(&self) -> RecordView {
        match self {
            Record::Put { key, value } => RecordView::Put(key@, value@),
            Record::Remove { key } => RecordView::Remove(key@),
        }
    }
}

impl RecordView {
    pub open spec fn key(self) -> Seq<char> {
        match self {
            RecordView::Put(k, _) => k,
            RecordView::Remove(k) => k,
        }
    }
}

/// The two characters that stand for a character that must be escaped, or the character itself.
pub open spec fn escape_char(c: char) -> Seq<char> {
    if c == '"' {
        seq!['\\', '"']
    } else if c == '\\' {
        seq!['\\', '\\']
    } else if c == '\n' {
        seq!['\\', 'n']
    } else if c == '\r' {
        seq!['\\', 'r']
    } else if c == '\t' {
        seq!['\\', 't']
    } else {
        seq![c]
    }
}

/// The body of a quoted string: each character escaped in turn.
pub open spec fn escape(s: Seq<char>) -> Seq<char>
    decreases s.len(),
{
    if s.len() == 0 {
        Seq::empty()
    } else {
        escape(s.drop_last()) + escape_char(s.last())
    }
}

/// The character that an escape sequence `\c` stands for.
pub open spec fn unescape_code(c: char) -> Option<char> {
    if c == '"' {
        Some('"')
    } else if c == '\\' {
        Some('\\')
    } else if c == 'n' {
        Some('\n')
    } else if c == 'r' {
        Some('\r')
    } else if c == 't' {
        Some('\t')
    } else {
        None
    }
}

/// Reads the body of a quoted string up to and including its closing quote: the text it
/// stands for and the number of characters consumed.
pub open spec fn unescape(s: Seq<char>) -> Option<(Seq<char>, nat)>
    decreases s.len(),
{
    if s.len() == 0 {
        None
    } else if s[0] == '"' {
        Some((Seq::empty(), 1nat))
    } else if s[0] == '\\' {
        if s.len() < 2 {
            None
        } else {
            match unescape_code(s[1]) {
                None => None,
                Some(c) => match unescape(s.skip(2)) {
                    None => None,
                    Some((t, n)) => Some((seq![c] + t, n + 2)),
                },
            }
        }
    } else {
        match unescape(s.skip(1)) {
            None => None,
            Some((t, n)) => Some((seq![s[0]] + t, n + 1)),
        }
    }
}

pub open spec fn set_head() -> Seq<char> {
    "{\"Set\":{\"key\":\""@
}

pub open spec fn value_head() -> Seq<char> {
    ",\"value\":\""@
}

pub open spec fn remove_head() -> Seq<char> {
    "{\"Remove\":{\"key\":\""@
}

pub open spec fn record_tail() -> Seq<char> {
    "}}"@
}

pub open spec fn quote() -> Seq<char> {
    seq!['"']
}

/// The line that stands for a record in the log (without its line break).
pub open spec fn encode_spec(r: RecordView) -> Seq<char> {
    match r {
        RecordView::Put(k, v) => set_head() + escape(k) + quote() + value_head() + escape(v)
            + quote() + record_tail(),
        RecordView::Remove(k) => remove_head() + escape(k) + quote() + record_tail(),
    }
}

pub open spec fn has_at(s: Seq<char>, pos: int, lit: Seq<char>) -> bool {
    0 <= pos && pos + lit.len() <= s.len() && s.subrange(pos, pos + lit.len()) == lit
}

/// The record that a line stands for, if it is well formed.
pub open spec fn decode_spec(l: Seq<char>) -> Option<RecordView> {
    if has_at(l, 0, set_head()) {
        let a = set_head().len() as int;
        match unescape(l.skip(a)) {
            None => None,
            Some((k, n)) => {
                let b = a + n;
                if has_at(l, b, value_head()) {
                    let c = b + value_head().len();
                    match unescape(l.skip(c)) {
                        None => None,
                        Some((v, m)) => if l.skip(c + m) == record_tail() {
                            Some(RecordView::Put(k, v))
                        } else {
                            None
                        },
                    }
                } else {
                    None
                }
            },
        }
    } else if has_at(l, 0, remove_head()) {
        let a = remove_head().len() as int;
        match unescape(l.skip(a)) {
            None => None,
            Some((k, n)) => if l.skip(a + n) == record_tail() {
                Some(RecordView::Remove(k))
            } else {
                None
            },
        }
    } else {
        None
    }
}

pub proof fn lemma_escape_concat(a: Seq<char>, b: Seq<char>)
    ensures
        escape(a + b) == escape(a) + escape(b),
    decreases b.len(),
{
    if b.len() == 0 {
        assert(a + b =~= a);
        assert(escape(a) + escape(b) =~= escape(a));
    } else {
        let b0 = b.drop_last();
        lemma_escape_concat(a, b0);
        assert((a + b).drop_last() =~= a + b0);
        assert((a + b).last() == b.last());
        assert(escape(a + b) =~= escape(a) + escape(b));
    }
}

pub proof fn lemma_escape_front(s: Seq<char>)
    requires
        s.len() > 0,
    ensures
        escape(s) == escape_char(s[0]) + escape(s.drop_first()),
{
    lemma_escape_concat(seq![s[0]], s.drop_first());
    assert(seq![s[0]] + s.drop_first() =~= s);
    assert(seq![s[0]].drop_last() =~= Seq::<char>::empty());
    assert(escape(Seq::<char>::empty()) + escape_char(s[0]) =~= escape_char(s[0]));
}

/// Reading back an escaped body followed by its closing quote gives the text again.
pub proof fn lemma_unescape_escape(s: Seq<char>, rest: Seq<char>)
    ensures
        unescape(escape(s) + quote() + rest) == Some((s, escape(s).len() + 1)),
    decreases s.len(),
{
    if s.len() == 0 {
        assert(escape(s) + quote() + rest =~= seq!['"'] + rest);
        assert(s =~= Seq::<char>::empty());
    } else {
        let t = s.drop_first();
        lemma_escape_front(s);
        lemma_unescape_escape(t, rest);
        let e = escape_char(s[0]);
        let whole = escape(s) + quote() + rest;
        assert(whole =~= e + (escape(t) + quote() + rest));
        assert(whole.skip(e.len() as int) =~= escape(t) + quote() + rest);
        assert(seq![s[0]] + t =~= s);
    }
}

pub proof fn lemma_unescape_len(s: Seq<char>)
    ensures
        unescape(s) matches Some((t, k)) ==> 0 < k <= s.len(),
    decreases s.len(),
{
    if s.len() > 1 {
        lemma_unescape_len(s.skip(1));
        lemma_unescape_len(s.skip(2));
    } else if s.len() > 0 {
        lemma_unescape_len(s.skip(1));
    }
}

/// The text holds no line feed and no carriage return.
pub open spec fn has_no_break(l: Seq<char>) -> bool {
    forall|i: int| 0 <= i < l.len() ==> l[i] != '\n' && l[i] != '\r'
}

pub proof fn lemma_escape_has_no_break(s: Seq<char>)
    ensures
        has_no_break(escape(s)),
    decreases s.len(),
{
    if s.len() > 0 {
        lemma_escape_has_no_break(s.drop_last());
        let a = escape(s.drop_last());
        let b = escape_char(s.last());
        assert forall|i: int| 0 <= i < escape(s).len() implies escape(s)[i] != '\n' && escape(s)[i]
            != '\r' by {
            if i >= a.len() {
                assert(escape(s)[i] == b[i - a.len()]);
            } else {
                assert(escape(s)[i] == a[i]);
            }
        }
    }
}

/// A record's line never holds a line break, so the log keeps one record per line.
pub proof fn lemma_encode_has_no_break(r: RecordView)
    ensures
        has_no_break(encode_spec(r)),
{
    reveal_strlit("{\"Set\":{\"key\":\"");
    reveal_strlit("{\"Remove\":{\"key\":\"");
    reveal_strlit(",\"value\":\"");
    reveal_strlit("}}");
    match r {
        RecordView::Put(k, v) => {
            lemma_escape_has_no_break(k);
            lemma_escape_has_no_break(v);
            lemma_concat_no_break(set_head(), escape(k));
            lemma_concat_no_break(set_head() + escape(k), quote());
            lemma_concat_no_break(set_head() + escape(k) + quote(), value_head());
            lemma_concat_no_break(set_head() + escape(k) + quote() + value_head(), escape(v));
            lemma_concat_no_break(set_head() + escape(k) + quote() + value_head() + escape(v), quote());
            lemma_concat_no_break(
                set_head() + escape(k) + quote() + value_head() + escape(v) + quote(),
                record_tail(),
            );
        },
        RecordView::Remove(k) => {
            lemma_escape_has_no_break(k);
            lemma_concat_no_break(remove_head(), escape(k));
            lemma_concat_no_break(remove_head() + escape(k), quote());
            lemma_concat_no_break(remove_head() + escape(k) + quote(), record_tail());
        },
    }
}

proof fn lemma_concat_no_break(a: Seq<char>, b: Seq<char>)
    requires
        has_no_break(a),
        has_no_break(b),
    ensures
        has_no_break(a + b),
{
    assert forall|i: int| 0 <= i < (a + b).len() implies (a + b)[i] != '\n' && (a + b)[i] != '\r' by {
        if i < a.len() {
            assert((a + b)[i] == a[i]);
        } else {
            assert((a + b)[i] == b[i - a.len()]);
        }
    }
}

/// Every record's line reads back as that record.
pub proof fn lemma_decode_encode(r: RecordView)
    ensures
        decode_spec(encode_spec(r)) == Some(r),
{
    reveal_strlit("{\"Set\":{\"key\":\"");
    reveal_strlit("{\"Remove\":{\"key\":\"");
    reveal_strlit(",\"value\":\"");
    reveal_strlit("}}");
    let l = encode_spec(r);
    match r {
        RecordView::Put(k, v) => {
            let a = set_head().len() as int;
            assert(l.subrange(0, a) =~= set_head());
            let rest1 = value_head() + escape(v) + quote() + record_tail();
            assert(l.skip(a) =~= escape(k) + quote() + rest1);
            lemma_unescape_escape(k, rest1);
            let b = a + escape(k).len() + 1;
            assert(l.subrange(b, b + value_head().len()) =~= value_head());
            let c = b + value_head().len();
            assert(l.skip(c) =~= escape(v) + quote() + record_tail());
            lemma_unescape_escape(v, record_tail());
            assert(l.skip(c + escape(v).len() + 1) =~= record_tail());
        },
        RecordView::Remove(k) => {
            let a = remove_head().len() as int;
            assert(l.subrange(0, a) =~= remove_head());
            assert(l.subrange(0, set_head().len() as int)[2] != set_head()[2]);
            assert(l.skip(a) =~= escape(k) + quote() + record_tail());
            lemma_unescape_escape(k, record_tail());
            assert(l.skip(a + escape(k).len() + 1) =~= record_tail());
        },
    }
}


/// Relies on String::push: appends one character.
#[verifier::external_body]
pub(crate) fn push_char(s: &mut String, c: char)
    ensures
        final(s)@ == old(s)@.push(c),
{
    s.push(c)
}

fn escape_char_exec(out: &mut String, c: char)
    ensures
        final(out)@ == old(out)@ + escape_char(c),
{
    if c == '"' {
        out.append("\\\"");
    } else if c == '\\' {
        out.append("\\\\");
    } else if c == '\n' {
        out.append("\\n");
    } else if c == '\r' {
        out.append("\\r");
    } else if c == '\t' {
        out.append("\\t");
    } else {
        push_char(out, c);
    }
    proof {
        reveal_strlit("\\\"");
        reveal_strlit("\\\\");
        reveal_strlit("\\n");
        reveal_strlit("\\r");
        reveal_strlit("\\t");
        assert(final(out)@ =~= old(out)@ + escape_char(c));
    }
}

fn push_escaped(out: &mut String, s: &str)
    ensures
        final(out)@ == old(out)@ + escape(s@),
{
    let n = s.unicode_len();
    let mut i: usize = 0;
    while i < n
        invariant
            n == s@.len(),
            i <= n,
            out@ == old(out)@ + escape(s@.take(i as int)),
        decreases n - i,
    {
        let c = s.get_char(i);
        escape_char_exec(out, c);
        proof {
            assert(s@.take(i + 1).drop_last() =~= s@.take(i as int));
            assert(s@.take(i + 1).last() == c);
        }
        i = i + 1;
    }
    proof {
        assert(s@.take(n as int) =~= s@);
    }
}

/// The log line of a record, without its line break.
pub fn encode_record(r: &Record) -> (line: String)
    ensures
        line@ == encode_spec(r@),
{
    let mut out = String::new();
    match r {
        Record::Put { key, value } => {
            out.append("{\"Set\":{\"key\":\"");
            push_escaped(&mut out, key.as_str());
            out.append("\"");
            out.append(",\"value\":\"");
            push_escaped(&mut out, value.as_str());
            out.append("\"");
            out.append("}}");
        },
        Record::Remove { key } => {
            out.append("{\"Remove\":{\"key\":\"");
            push_escaped(&mut out, key.as_str());
            out.append("\"");
            out.append("}}");
        },
    }
    proof {
        reveal_strlit("\"");
        assert(out@ =~= encode_spec(r@));
    }
    out
}

fn has_at_exec(s: &str, n: usize, pos: usize, lit: &str) -> (r: bool)
    requires
        n == s@.len(),
    ensures
        r == has_at(s@, pos as int, lit@),
{
    let m = lit.unicode_len();
    if m > n || pos > n - m {
        return false;
    }
    let mut i: usize = 0;
    while i < m
        invariant
            m == lit@.len(),
            n == s@.len(),
            pos + m <= n,
            i <= m,
            forall|j: int| 0 <= j < i ==> s@[pos + j] == lit@[j],
        decreases m - i,
    {
        if s.get_char(pos + i) != lit.get_char(i) {
            assert(s@.subrange(pos as int, pos + m)[i as int] != lit@[i as int]);
            return false;
        }
        i = i + 1;
    }
    assert(s@.subrange(pos as int, pos + m) =~= lit@);
    true
}

fn unescape_code_exec(c: char) -> (r: Option<char>)
    ensures
        r == unescape_code(c),
{
    if c == '"' {
        Some('"')
    } else if c == '\\' {
        Some('\\')
    } else if c == 'n' {
        Some('\n')
    } else if c == 'r' {
        Some('\r')
    } else if c == 't' {
        Some('\t')
    } else {
        None
    }
}

/// `o` with `a` put in front of its text and `d` added to its count.
pub open spec fn prefixed(a: Seq<char>, d: int, o: Option<(Seq<char>, nat)>) -> Option<(Seq<char>, nat)> {
    match o {
        None => None,
        Some((t, k)) => Some((a + t, (k + d) as nat)),
    }
}

/// Reads a quoted body that starts at `pos`: the text, and the position after the closing quote.
fn unescape_at(s: &str, n: usize, pos: usize) -> (r: Option<(String, usize)>)
    requires
        n == s@.len(),
        pos <= n,
    ensures
        match unescape(s@.skip(pos as int)) {
            None => r is None,
            Some((t, k)) => r matches Some((u, e)) && u@ == t && e == pos + k && e <= n,
        },
{
    proof {
        lemma_unescape_len(s@.skip(pos as int));
    }
    let mut acc = String::new();
    let mut p: usize = pos;
    while p < n
        invariant
            n == s@.len(),
            pos <= p <= n,
            unescape(s@.skip(pos as int)) == prefixed(acc@, p - pos, unescape(s@.skip(p as int))),
        decreases n - p,
    {
        let c = s.get_char(p);
        let ghost sp = s@.skip(p as int);
        assert(sp[0] == c);
        if c == '"' {
            assert(acc@ + Seq::<char>::empty() =~= acc@);
            return Some((acc, p + 1));
        } else if c == '\\' {
            if p + 1 >= n {
                return None;
            }
            let c2 = s.get_char(p + 1);
            assert(sp[1] == c2);
            match unescape_code_exec(c2) {
                None => {
                    return None;
                },
                Some(d) => {
                    let ghost old_acc = acc@;
                    push_char(&mut acc, d);
                    assert(sp.skip(2) =~= s@.skip(p + 2));
                    assert(old_acc.push(d) =~= old_acc + seq![d]);
                    assert forall|t: Seq<char>| #![auto] old_acc + (seq![d] + t) == acc@ + t by {
                        assert(old_acc + (seq![d] + t) =~= acc@ + t);
                    }
                    p = p + 2;
                },
            }
        } else {
            let ghost old_acc = acc@;
            push_char(&mut acc, c);
            assert(sp.skip(1) =~= s@.skip(p + 1));
            assert forall|t: Seq<char>| #![auto] old_acc + (seq![c] + t) == acc@ + t by {
                assert(old_acc + (seq![c] + t) =~= acc@ + t);
            }
            p = p + 1;
        }
    }
    None
}

fn malformed() -> (e: KvsError)
    ensures
        e is Serde,
{
    KvsError::Serde("malformed log record".to_string())
}

/// The record that a log line stands for; a malformed line is a `Serde` error.
pub fn decode_record(line: &str) -> (r: Result<Record, KvsError>)
    ensures
        match decode_spec(line@) {
            Some(rv) => r matches Ok(rec) && rec@ == rv,
            None => r matches Err(e) && e is Serde,
        },
{
    let n = line.unicode_len();
    let set_head_s = "{\"Set\":{\"key\":\"";
    let value_head_s = ",\"value\":\"";
    let remove_head_s = "{\"Remove\":{\"key\":\"";
    let tail_s = "}}";
    let tail_len = tail_s.unicode_len();
    if has_at_exec(line, n, 0, set_head_s) {
        let a = set_head_s.unicode_len();
        match unescape_at(line, n, a) {
            None => Err(malformed()),
            Some((key, b)) => {
                if has_at_exec(line, n, b, value_head_s) {
                    let c = b + value_head_s.unicode_len();
                    match unescape_at(line, n, c) {
                        None => Err(malformed()),
                        Some((value, d)) => {
                            if has_at_exec(line, n, d, tail_s) && d + tail_len == n {
                                assert(line@.skip(d as int) =~= line@.subrange(d as int, d + tail_len));
                                Ok(Record::Put { key, value })
                            } else {
                                proof {
                                    if line@.skip(d as int) == record_tail() {
                                        assert(line@.skip(d as int).len() == tail_len);
                                        assert(line@.subrange(d as int, d + tail_len) =~= line@.skip(d as int));
                                    }
                                }
                                Err(malformed())
                            }
                        },
                    }
                } else {
                    Err(malformed())
                }
            },
        }
    } else if has_at_exec(line, n, 0, remove_head_s) {
        let a = remove_head_s.unicode_len();
        match unescape_at(line, n, a) {
            None => Err(malformed()),
            Some((key, d)) => {
                if has_at_exec(line, n, d, tail_s) && d + tail_len == n {
                    assert(line@.skip(d as int) =~= line@.subrange(d as int, d + tail_len));
                    Ok(Record::Remove { key })
                } else {
                    proof {
                        if line@.skip(d as int) == record_tail() {
                            assert(line@.skip(d as int).len() == tail_len);
                            assert(line@.subrange(d as int, d + tail_len) =~= line@.skip(d as int));
                        }
                    }
                    Err(malformed())
                }
            },
        }
    } else {
        Err(malformed())
    }
}

} // verus!
