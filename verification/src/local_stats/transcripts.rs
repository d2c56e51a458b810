//! Transcript files: which of their lines count, and under which key.
use crate::snapshot::opt_text;
use crate::text::{join3, utf8_text};
use vstd::prelude::*;
use vstd::utf8::{decode_utf8, valid_utf8};

verus! {

/// The tokens that a message took.
#[derive(Debug, Clone, Copy, PartialEq, Eq, Structural)]
pub struct Usage {
    pub input_tokens: u64,
    pub output_tokens: u64,
    pub cache_creation_input_tokens: u64,
    pub cache_read_input_tokens: u64,
}

impl Default for Usage {
    fn default() -> (r: Self)
        ensures
            r == (Usage {
                input_tokens: 0,
                output_tokens: 0,
                cache_creation_input_tokens: 0,
                cache_read_input_tokens: 0,
            }),
    {
        Usage {
            input_tokens: 0,
            output_tokens: 0,
            cache_creation_input_tokens: 0,
            cache_read_input_tokens: 0,
        }
    }
}

impl Usage {
    /// All tokens together.
    pub open spec fn total(self) -> int {
        self.input_tokens + self.output_tokens + self.cache_creation_input_tokens
            + self.cache_read_input_tokens
    }

    /// All tokens together, where they can be counted.
    pub fn checked_total(&self) -> (r: Option<u64>)
        ensures
            match r {
                Some(n) => n == self.total(),
                None => self.total() > u64::MAX,
            },
            r matches Some(n) ==> n == self.input_tokens + self.output_tokens
                + self.cache_creation_input_tokens + self.cache_read_input_tokens,
    {
        let total: u128 = self.input_tokens as u128 + self.output_tokens as u128
            + self.cache_creation_input_tokens as u128 + self.cache_read_input_tokens as u128;
        if total <= u64::MAX as u128 {
            Some(total as u64)
        } else {
            None
        }
    }
}

/// A message of a transcript that took tokens.
#[derive(Debug)]
pub struct Entry {
    /// ISO 8601.
    pub timestamp: String,
    pub model: String,
    pub usage: Usage,
}

pub ghost struct EntryView {
    pub timestamp: Seq<char>,
    pub model: Seq<char>,
    pub usage: Usage,
}

impl View for Entry {
    type V = EntryView;

    open spec fn view(&self) -> EntryView {
        EntryView { timestamp: self.timestamp@, model: self.model@, usage: self.usage }
    }
}

impl Clone for Entry {
    fn clone(&self) -> (r: Self)
        ensures
            r@ == self@,
    {
        Entry { timestamp: self.timestamp.clone(), model: self.model.clone(), usage: self.usage }
    }
}

/// The views of the entries of a list.
pub open spec fn entries_of(list: Seq<Entry>) -> Seq<EntryView> {
    list.map_values(|e: Entry| e@)
}

/// The views of a list of keys and entries.
pub open spec fn keyed(list: Seq<(String, Entry)>) -> Seq<(Seq<char>, EntryView)> {
    list.map_values(|p: (String, Entry)| (p.0@, p.1@))
}

/// The message of a line.
pub struct RawMessage {
    pub id: Option<String>,
    pub model: Option<String>,
    pub usage: Option<Usage>,
}

/// What a line holds.
pub struct RawLine {
    pub kind: Option<String>,
    pub timestamp: Option<String>,
    pub request_id: Option<String>,
    pub message: Option<RawMessage>,
}

/// What reading a line gives: bytes that are no UTF-8, a text that is no such object, or the object.
pub enum Line {
    Unreadable,
    Malformed,
    Parsed(RawLine),
}

/// The bytes of a line without the line feed at its end, nor the carriage return before that.
pub open spec fn without_line_end(bytes: Seq<u8>) -> Seq<u8> {
    if bytes.len() > 0 && bytes.last() == 0x0a {
        let rest = bytes.drop_last();
        if rest.len() > 0 && rest.last() == 0x0d {
            rest.drop_last()
        } else {
            rest
        }
    } else {
        bytes
    }
}

/// The text of a line that was read with its line end; none where it is no UTF-8.
pub fn line_text(bytes: Vec<u8>) -> (r: Option<String>)
    ensures
        opt_text(r) == (if valid_utf8(without_line_end(bytes@)) {
            Some(decode_utf8(without_line_end(bytes@)))
        } else {
            None
        }),
{
    let mut rest = bytes;
    let n: usize = rest.len();
    if n > 0 && rest[n - 1] == 0x0a {
        rest.truncate(n - 1);
        assert(rest@ =~= bytes@.drop_last());
        if n > 1 && rest[n - 2] == 0x0d {
            rest.truncate(n - 2);
            assert(rest@ =~= bytes@.drop_last().drop_last());
        }
    }
    utf8_text(rest)
}

/// An optional text, or the empty one.
pub open spec fn or_empty(s: Option<String>) -> Seq<char> {
    match s {
        Some(t) => t@,
        None => Seq::empty(),
    }
}

/// What a line counts for: a line of the assistant with an id, a model and a usage gives an entry,
/// with the id and the request as its key.
pub open spec fn counted(line: Line) -> Option<(Seq<char>, EntryView)> {
    match line {
        Line::Parsed(raw) => match raw.message {
            Some(m) => if opt_text(raw.kind) == Some("assistant"@) && m.id is Some && m.model is Some
                && m.usage is Some {
                Some(
                    (
                        m.id->Some_0@ + ":"@ + or_empty(raw.request_id),
                        EntryView {
                            timestamp: or_empty(raw.timestamp),
                            model: m.model->Some_0@,
                            usage: m.usage->Some_0,
                        },
                    ),
                )
            } else {
                None
            },
            None => None,
        },
        _ => None,
    }
}

/// What the lines of a file count for; lines that do not count are passed over.
pub open spec fn counted_lines(lines: Seq<Line>) -> Seq<(Seq<char>, EntryView)>
    decreases lines.len(),
{
    if lines.len() == 0 {
        Seq::empty()
    } else {
        match counted(lines[0]) {
            Some(p) => seq![p] + counted_lines(lines.skip(1)),
            None => counted_lines(lines.skip(1)),
        }
    }
}

/// What a line counts for.
pub fn count_line(line: &Line) -> (r: Option<(String, Entry)>)
    ensures
        match counted(*line) {
            Some(p) => r is Some && r->Some_0.0@ == p.0 && r->Some_0.1@ == p.1,
            None => r is None,
        },
        r is Some <==> {
            let raw = line->Parsed_0;
            &&& line is Parsed
            &&& raw.kind is Some && raw.kind->0@ == "assistant"@
            &&& raw.message is Some && raw.message->0.id is Some && raw.message->0.model is Some
                && raw.message->0.usage is Some
        },
        r matches Some((_, entry)) ==> {
            let raw = line->Parsed_0;
            &&& entry.usage == raw.message->0.usage->0
            &&& entry.model@ == raw.message->0.model->0@
            &&& raw.timestamp matches Some(t) ==> entry.timestamp@ == t@
        },
{
    let raw = match line {
        Line::Parsed(raw) => raw,
        _ => {
            return None;
        },
    };
    let assistant = match &raw.kind {
        Some(kind) => *kind == "assistant".to_owned(),
        None => false,
    };
    if !assistant {
        return None;
    }
    match &raw.message {
        Some(m) => match (&m.id, &m.model, &m.usage) {
            (Some(id), Some(model), Some(usage)) => {
                let request = match &raw.request_id {
                    Some(t) => t.as_str(),
                    None => "",
                };
                proof {
                    reveal_strlit("");
                    assert(""@ =~= Seq::<char>::empty());
                }
                let timestamp = match &raw.timestamp {
                    Some(t) => t.clone(),
                    None => String::new(),
                };
                Some(
                    (
                        join3(id.as_str(), ":", request),
                        Entry { timestamp, model: model.clone(), usage: *usage },
                    ),
                )
            },
            _ => None,
        },
        None => None,
    }
}

/// The entries of a transcript file with their keys, duplicates and all; none for a file that
/// cannot be opened. Lines that are no UTF-8, malformed lines and lines that do not count are passed
/// over.
pub fn parse_jsonl_file(file: &Option<Vec<Line>>) -> (r: Vec<(String, Entry)>)
    ensures
        keyed(r@) == parsed(*file),
{
    let mut out: Vec<(String, Entry)> = Vec::new();
    let lines = match file {
        Some(lines) => lines,
        None => {
            assert(keyed(out@) =~= Seq::empty());
            return out;
        },
    };
    let mut i: usize = 0;
    assert(lines@.skip(0) =~= lines@);
    assert(keyed(out@) =~= Seq::empty());
    while i < lines.len()
        invariant
            i <= lines@.len(),
            keyed(out@) + counted_lines(lines@.skip(i as int)) =~= counted_lines(lines@),
        decreases lines@.len() - i,
    {
        let ghost rest = lines@.skip(i as int);
        let ghost before = keyed(out@);
        assert(rest[0] == lines@[i as int]);
        assert(rest.skip(1) =~= lines@.skip(i + 1));
        if let Some(pair) = count_line(&lines[i]) {
            let ghost p = (pair.0@, pair.1@);
            out.push(pair);
            assert(keyed(out@) =~= before.push(p));
            assert(before.push(p) + counted_lines(rest.skip(1)) =~= before + (seq![p]
                + counted_lines(rest.skip(1))));
        }
        i = i + 1;
    }
    assert(lines@.skip(i as int) =~= Seq::empty());
    out
}

/// The entries of a transcript file with their keys.
pub open spec fn parsed(file: Option<Vec<Line>>) -> Seq<(Seq<char>, EntryView)> {
    match file {
        Some(lines) => counted_lines(lines@),
        None => Seq::empty(),
    }
}

/// A file counts for what its parts count for.
pub proof fn law_lines_count_one_by_one(a: Seq<Line>, b: Seq<Line>)
    ensures
        counted_lines(a + b) == counted_lines(a) + counted_lines(b),
    decreases a.len(),
{
    if a.len() == 0 {
        assert(a + b =~= b);
        assert(counted_lines(a) + counted_lines(b) =~= counted_lines(b));
    } else {
        assert((a + b)[0] == a[0]);
        assert((a + b).skip(1) =~= a.skip(1) + b);
        law_lines_count_one_by_one(a.skip(1), b);
        if let Some(p) = counted(a[0]) {
            assert(seq![p] + (counted_lines(a.skip(1)) + counted_lines(b)) =~= (seq![p]
                + counted_lines(a.skip(1))) + counted_lines(b));
        }
    }
}

/// A line that is no UTF-8 or malformed is skipped: the file counts for what it counts for without
/// that line.
pub proof fn law_bad_lines_are_skipped(before: Seq<Line>, bad: Line, after: Seq<Line>)
    requires
        bad is Unreadable || bad is Malformed,
    ensures
        counted_lines(before.push(bad) + after) == counted_lines(before + after),
{
    let one = seq![bad];
    assert(before.push(bad) + after =~= before + (one + after));
    assert((one + after)[0] == bad);
    assert((one + after).skip(1) =~= after);
    assert(counted_lines(one + after) == counted_lines(after));
    law_lines_count_one_by_one(before, one + after);
    law_lines_count_one_by_one(before, after);
}

/// A line of the assistant with an id, a model and a usage counts, and no other line does. It counts
/// for what stands in it: its four token counts, its model and its time, under its id and its request.
pub proof fn law_line_counts_as_it_stands(raw: RawLine)
    ensures
        counted(Line::Parsed(raw)) is Some <==> {
            &&& raw.kind is Some
            &&& raw.kind->0@ == "assistant"@
            &&& raw.message is Some
            &&& raw.message->0.id is Some
            &&& raw.message->0.model is Some
            &&& raw.message->0.usage is Some
        },
        counted(Line::Parsed(raw)) matches Some((key, entry)) ==> {
            let usage = raw.message->0.usage->0;
            &&& entry.usage.input_tokens == usage.input_tokens
            &&& entry.usage.output_tokens == usage.output_tokens
            &&& entry.usage.cache_creation_input_tokens == usage.cache_creation_input_tokens
            &&& entry.usage.cache_read_input_tokens == usage.cache_read_input_tokens
            &&& entry.model == raw.message->0.model->0@
            &&& match raw.timestamp {
                Some(t) => entry.timestamp == t@,
                None => entry.timestamp.len() == 0,
            }
            &&& match raw.request_id {
                Some(t) => key == raw.message->0.id->0@ + ":"@ + t@,
                None => key == raw.message->0.id->0@ + ":"@,
            }
        },
{
    if counted(Line::Parsed(raw)) is Some && raw.request_id is None {
        assert(counted(Line::Parsed(raw))->Some_0.0 =~= raw.message->0.id->0@ + ":"@);
    }
}

/// Sums over a list of entries: the four token counts, each by itself.
pub open spec fn sums_of(pairs: Seq<(Seq<char>, EntryView)>) -> (int, int, int, int)
    decreases pairs.len(),
{
    if pairs.len() == 0 {
        (0, 0, 0, 0)
    } else {
        let rest = sums_of(pairs.skip(1));
        let usage = pairs[0].1.usage;
        (
            usage.input_tokens + rest.0,
            usage.output_tokens + rest.1,
            usage.cache_creation_input_tokens + rest.2,
            usage.cache_read_input_tokens + rest.3,
        )
    }
}

/// Sums over the lines that name the assistant, an id, a model and a usage: the four token counts as
/// they stand in the lines.
pub open spec fn sums_in_lines(lines: Seq<Line>) -> (int, int, int, int)
    decreases lines.len(),
{
    if lines.len() == 0 {
        (0, 0, 0, 0)
    } else {
        let rest = sums_in_lines(lines.skip(1));
        match lines[0] {
            Line::Parsed(RawLine {
                kind: Some(kind),
                message: Some(RawMessage { id: Some(_), model: Some(_), usage: Some(usage) }),
                ..
            }) => if kind@ == "assistant"@ {
                (
                    usage.input_tokens + rest.0,
                    usage.output_tokens + rest.1,
                    usage.cache_creation_input_tokens + rest.2,
                    usage.cache_read_input_tokens + rest.3,
                )
            } else {
                rest
            },
            _ => rest,
        }
    }
}

/// The tokens of a file are those of its counted lines: each of the four sums over the entries is the
/// sum of the counts that stand in the lines.
pub proof fn law_file_sums_its_lines(lines: Seq<Line>)
    ensures
        sums_of(counted_lines(lines)) == sums_in_lines(lines),
    decreases lines.len(),
{
    if lines.len() > 0 {
        law_file_sums_its_lines(lines.skip(1));
        if let Line::Parsed(raw) = lines[0] {
            law_line_counts_as_it_stands(raw);
        }
        if let Some(p) = counted(lines[0]) {
            let all = seq![p] + counted_lines(lines.skip(1));
            assert(all[0] == p);
            assert(all.skip(1) =~= counted_lines(lines.skip(1)));
        }
    }
}

/// Every one of the four counts goes into the total, once.
pub proof fn law_total_takes_every_count(a: Usage, b: Usage)
    ensures
        b.total() - a.total() == (b.input_tokens - a.input_tokens) + (b.output_tokens
            - a.output_tokens) + (b.cache_creation_input_tokens - a.cache_creation_input_tokens) + (
        b.cache_read_input_tokens - a.cache_read_input_tokens),
        (Usage {
            input_tokens: 0,
            output_tokens: 0,
            cache_creation_input_tokens: 0,
            cache_read_input_tokens: 0,
        }).total() == 0,
{
}

/// What is left of a line is its start: only a line feed, or a carriage return and a line feed, is
/// taken from its end, once, and a line without a line feed stays as it is.
pub proof fn law_one_line_end_is_taken(text: Seq<u8>)
    ensures
        without_line_end(text + seq![0x0du8, 0x0au8]) == text,
        text.len() == 0 || text.last() != 0x0d ==> without_line_end(text + seq![0x0au8]) == text,
        text.len() == 0 || text.last() != 0x0a ==> without_line_end(text) == text,
{
    let crlf = text + seq![0x0du8, 0x0au8];
    assert(crlf.drop_last().last() == 0x0d);
    assert(crlf.drop_last().drop_last() =~= text);
    assert((text + seq![0x0au8]).drop_last() =~= text);
}

/// A line stands for one entry if it counts and for none if it does not, whatever its entry holds; a
/// file that cannot be opened has no entries.
pub proof fn law_one_line_one_entry(line: Line, lines: Vec<Line>)
    ensures
        counted(line) matches Some(p) ==> counted_lines(seq![line]) == seq![p],
        counted(line) is None ==> counted_lines(seq![line]).len() == 0,
        counted(Line::Unreadable) is None,
        counted(Line::Malformed) is None,
        parsed(Some(lines)) == counted_lines(lines@),
        parsed(None).len() == 0,
{
    let one = seq![line];
    assert(one.skip(1) =~= Seq::<Line>::empty());
    assert(counted_lines(one.skip(1)) =~= Seq::empty());
    if let Some(p) = counted(line) {
        assert(seq![p] + counted_lines(one.skip(1)) =~= seq![p]);
    }
}

/// The views of a list of entries are those of its entries, one for one, with their keys.
pub proof fn law_entries_one_for_one(list: Seq<(String, Entry)>, entries: Seq<Entry>, i: int)
    ensures
        keyed(list).len() == list.len(),
        0 <= i < list.len() ==> keyed(list)[i].0 == list[i].0@ && keyed(list)[i].1.timestamp
            == list[i].1.timestamp@ && keyed(list)[i].1.model == list[i].1.model@
            && keyed(list)[i].1.usage == list[i].1.usage,
        entries_of(entries).len() == entries.len(),
        0 <= i < entries.len() ==> entries_of(entries)[i].timestamp == entries[i].timestamp@
            && entries_of(entries)[i].model == entries[i].model@ && entries_of(entries)[i].usage
            == entries[i].usage,
{
}

} // verus!
