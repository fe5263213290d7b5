//! Log records read from CLEF events.

use vstd::prelude::*;
use crate::json::{decode_json, json_decoded, lookup_str, object_get, JsonNode, JsonValue};
use crate::level::{indices_in_bounds, lemma_tally_reorder, level_named, rank, tally, Level};
use crate::template::{render_template, rendered};
use crate::text::{chars_of, lowercase, string_of, trim, trimmed};
use crate::time::{fmt_local, local_text, parse_utc, representable, utc_parse, UtcInstant};

verus! {

/// One log event.
#[derive(Debug)]
pub struct LogRecord {
    /// The `@t` timestamp as written.
    pub timestamp_utc: String,
    /// The instant `@t` denotes, when it parses.
    pub dt_utc: Option<UtcInstant>,
    /// The timestamp on the local clock, or as written when it does not parse.
    pub timestamp_local: String,
    pub level: Level,
    /// The message: `@m` when present, else the rendered `@mt`.
    pub message: String,
    /// The `@mt` message template.
    pub template: String,
    /// The `@x` exception text.
    pub exception: String,
    /// The whole event as decoded.
    pub raw: JsonValue,
    /// The 1-based line of the event in its file.
    pub line_no: usize,
}

/// The string member `key` of an event, or the empty text.
pub open spec fn member_or_empty(entries: Seq<(String, JsonValue)>, key: Seq<char>) -> Seq<char> {
    match lookup_str(entries, key) {
        Some(s) => s,
        None => Seq::empty(),
    }
}

/// The level of an event: its `@l` member read as a level name, `Info`
/// when there is none.
pub open spec fn event_level(entries: Seq<(String, JsonValue)>) -> Level {
    match lookup_str(entries, "@l"@) {
        Some(s) => level_named(lowercase(s)),
        None => Level::Info,
    }
}

/// The message of an event: `@m` when it is not empty, else `@mt` rendered
/// with the event's members, else empty.
pub open spec fn event_message(entries: Seq<(String, JsonValue)>) -> Seq<char> {
    let m = member_or_empty(entries, "@m"@);
    let mt = member_or_empty(entries, "@mt"@);
    if m.len() > 0 {
        m
    } else if mt.len() > 0 {
        rendered(mt, entries)
    } else {
        Seq::empty()
    }
}

/// The string member `key` of an event, or the empty string.
fn member_text(entries: &Vec<(String, JsonValue)>, key: &str) -> (r: String)
    ensures
        r@ == member_or_empty(entries@, key@),
{
    let k = chars_of(key);
    match object_get(entries, &k) {
        Some(v) => match &v.node {
            JsonNode::String(s) => s.clone(),
            _ => String::new(),
        },
        None => String::new(),
    }
}

/// Whether `rec` is the record of the decoded CLEF event `v` (an object)
/// on line `line_no`. The local timestamp is the `@t` instant as
/// `fmt_local` writes it (its local reading depends on the machine's time
/// zone), or `@t` as written when it does not parse.
pub open spec fn clef_record(v: JsonValue, line_no: usize, rec: LogRecord) -> bool {
    let entries = v.node->Object_0@;
    &&& rec.timestamp_utc@ == member_or_empty(entries, "@t"@)
    &&& rec.dt_utc == utc_parse(rec.timestamp_utc@)
    &&& rec.dt_utc is None ==> rec.timestamp_local@ == rec.timestamp_utc@
    &&& rec.dt_utc matches Some(d) ==> representable(d) && local_text(d, rec.timestamp_local@)
    &&& rec.level == event_level(entries)
    &&& rec.template@ == member_or_empty(entries, "@mt"@)
    &&& rec.exception@ == member_or_empty(entries, "@x"@)
    &&& rec.message@ == event_message(entries)
    &&& rec.raw == v
    &&& rec.line_no == line_no
}

/// The record for a decoded CLEF event: `None` unless the event is a JSON
/// object (see `clef_record`).
pub fn parse_clef_line(v: JsonValue, line_no: usize) -> (r: Option<LogRecord>)
    ensures
        r is Some <==> v.node is Object,
        r matches Some(rec) ==> clef_record(v, line_no, rec),
{
    let (timestamp_utc, dt_utc, timestamp_local, level, message, template, exception) = match &v.node {
        JsonNode::Object(entries) => {
            let timestamp_utc = member_text(entries, "@t");
            let dt_utc = parse_utc(timestamp_utc.as_str());
            let timestamp_local = match &dt_utc {
                Some(d) => fmt_local(d),
                None => timestamp_utc.clone(),
            };
            let lk = chars_of("@l");
            let level = match object_get(entries, &lk) {
                Some(l) => match &l.node {
                    JsonNode::String(s) => Level::from_str(s.as_str()),
                    _ => Level::Info,
                },
                None => Level::Info,
            };
            let template = member_text(entries, "@mt");
            let exception = member_text(entries, "@x");
            let raw_m = member_text(entries, "@m");
            let message = if !raw_m.as_str().is_empty() {
                raw_m
            } else if !template.as_str().is_empty() {
                render_template(template.as_str(), entries)
            } else {
                String::new()
            };
            (timestamp_utc, dt_utc, timestamp_local, level, message, template, exception)
        },
        _ => return None,
    };
    Some(LogRecord { timestamp_utc, dt_utc, timestamp_local, level, message, template, exception, raw: v, line_no })
}

/// The record of one line of CLEF text: the line, trimmed, decoded as JSON;
/// `None` unless that gives an object.
pub fn parse_clef_text(line: &str, line_no: usize) -> (r: Option<LogRecord>)
    ensures
        r is Some <==> (json_decoded(trimmed(line@)) matches Some(v) && v.node is Object),
        r matches Some(rec) ==> clef_record(json_decoded(trimmed(line@))->0, line_no, rec),
{
    let t = trim(line);
    match decode_json(t.as_str()) {
        Some(v) => parse_clef_line(v, line_no),
        None => None,
    }
}

/// A line without the carriage return that ends it, if any.
pub open spec fn strip_cr(l: Seq<char>) -> Seq<char> {
    if l.len() > 0 && l.last() == '\r' {
        l.drop_last()
    } else {
        l
    }
}

/// Splitting `c` into lines: the lines ended so far (by `\n`, a `\r` before
/// it dropped) and the text of the line still open.
pub open spec fn line_split(c: Seq<char>) -> (Seq<Seq<char>>, Seq<char>)
    decreases c.len(),
{
    if c.len() == 0 {
        (Seq::empty(), Seq::empty())
    } else {
        let (done, cur) = line_split(c.drop_last());
        if c.last() == '\n' {
            (done.push(strip_cr(cur)), Seq::empty())
        } else {
            (done, cur.push(c.last()))
        }
    }
}

/// The lines of a text as `str::lines` gives them: split at `\n` or
/// `\r\n`, without a last empty line after a final line break.
pub open spec fn text_lines(c: Seq<char>) -> Seq<Seq<char>> {
    let (done, cur) = line_split(c);
    if cur.len() > 0 {
        done.push(cur)
    } else {
        done
    }
}

/// The lines of a text (see `text_lines`).
pub fn split_lines(content: &str) -> (r: Vec<Vec<char>>)
    ensures
        r@.map_values(|l: Vec<char>| l@) == text_lines(content@),
        r.len() <= content@.len(),
{
    let c = chars_of(content);
    let mut done: Vec<Vec<char>> = Vec::new();
    let mut cur: Vec<char> = Vec::new();
    let mut i: usize = 0;
    while i < c.len()
        invariant
            i <= c.len(),
            c@ == content@,
            (done@.map_values(|l: Vec<char>| l@), cur@) == line_split(c@.take(i as int)),
            done.len() + if cur.len() > 0 { 1int } else { 0int } <= i,
        decreases c.len() - i,
    {
        proof {
            assert(c@.take(i + 1).drop_last() =~= c@.take(i as int));
        }
        let ghost prev = done@;
        if c[i] == '\n' {
            let ghost open_line = cur@;
            let mut line = cur;
            if line.len() > 0 && line[line.len() - 1] == '\r' {
                line.pop();
                assert(line@ =~= strip_cr(open_line));
            }
            done.push(line);
            cur = Vec::new();
            assert(done@.map_values(|l: Vec<char>| l@) =~= prev.map_values(|l: Vec<char>| l@).push(strip_cr(open_line)));
        } else {
            cur.push(c[i]);
        }
        i = i + 1;
    }
    assert(c@.take(i as int) =~= c@);
    if cur.len() > 0 {
        let ghost prev = done@;
        let ghost last = cur@;
        done.push(cur);
        assert(done@.map_values(|l: Vec<char>| l@) =~= prev.map_values(|l: Vec<char>| l@).push(last));
    }
    done
}

/// Whether a line holds a CLEF event: it is not blank, and trimmed it
/// decodes to a JSON object.
pub open spec fn event_line(l: Seq<char>) -> bool {
    &&& trimmed(l).len() > 0
    &&& json_decoded(trimmed(l)) matches Some(v) && v.node is Object
}

/// The positions, in order, of the lines among `lines` that hold events.
pub open spec fn event_lines(lines: Seq<Seq<char>>) -> Seq<int>
    decreases lines.len(),
{
    if lines.len() == 0 {
        Seq::empty()
    } else {
        let prev = event_lines(lines.drop_last());
        if event_line(lines.last()) {
            prev.push(lines.len() - 1)
        } else {
            prev
        }
    }
}

/// The records of a CLEF text: one for each line that holds an event (see
/// `event_line`), in order, numbered by its line from 1.
pub fn records_of(content: &str) -> (r: Vec<LogRecord>)
    ensures
        ({
            let ls = text_lines(content@);
            let ev = event_lines(ls);
            &&& r.len() == ev.len()
            &&& forall|k: int| 0 <= k < r.len() ==> clef_record(
                json_decoded(trimmed(ls[ev[k]]))->0,
                (ev[k] + 1) as usize,
                #[trigger] r@[k],
            )
            &&& forall|k: int| 0 <= k < r.len() ==> (#[trigger] r@[k]).line_no == ev[k] + 1
        }),
{
    let lines = split_lines(content);
    let ghost ls = text_lines(content@);
    let mut out: Vec<LogRecord> = Vec::new();
    let mut i: usize = 0;
    while i < lines.len()
        invariant
            i <= lines.len(),
            lines.len() <= content@.len(),
            lines@.map_values(|l: Vec<char>| l@) == ls,
            ls == text_lines(content@),
            out.len() == event_lines(ls.take(i as int)).len(),
            forall|k: int| 0 <= k < out.len() ==> clef_record(
                json_decoded(trimmed(ls[event_lines(ls.take(i as int))[k]]))->0,
                (event_lines(ls.take(i as int))[k] + 1) as usize,
                #[trigger] out@[k],
            ),
            forall|k: int| 0 <= k < out.len() ==> (#[trigger] out@[k]).line_no == event_lines(ls.take(i as int))[k] + 1,
            forall|k: int| 0 <= k < out.len() ==> 0 <= #[trigger] event_lines(ls.take(i as int))[k] < i,
        decreases lines.len() - i,
    {
        let ghost before = event_lines(ls.take(i as int));
        proof {
            assert(ls.take(i + 1).drop_last() =~= ls.take(i as int));
            assert(ls.take(i + 1).last() == ls[i as int]);
            assert(lines@[i as int]@ == ls[i as int]);
        }
        let line = string_of(&lines[i]);
        let t = trim(line.as_str());
        if !t.as_str().is_empty() {
            let ghost prev = out@;
            match parse_clef_text(line.as_str(), i + 1) {
                Some(rec) => {
                    out.push(rec);
                    proof {
                        assert(event_lines(ls.take(i + 1)) == before.push(i as int));
                        assert forall|k: int| 0 <= k < out.len() implies clef_record(
                            json_decoded(trimmed(ls[event_lines(ls.take(i + 1))[k]]))->0,
                            (event_lines(ls.take(i + 1))[k] + 1) as usize,
                            #[trigger] out@[k],
                        ) && out@[k].line_no == event_lines(ls.take(i + 1))[k] + 1 by {
                            if k < prev.len() {
                                assert(out@[k] == prev[k]);
                            }
                        }
                    }
                },
                None => {
                    assert(!event_line(ls[i as int]));
                    assert(event_lines(ls.take(i + 1)) == before);
                },
            }
        } else {
            assert(!event_line(ls[i as int]));
            assert(event_lines(ls.take(i + 1)) == before);
        }
        i = i + 1;
    }
    assert(ls.take(i as int) =~= ls);
    out
}

/// A message template with how often it occurs and its most frequent level.
#[derive(Clone, Debug)]
pub struct TemplateSummary {
    pub template: String,
    pub count: usize,
    pub level: Level,
}

/// The number of characters of a message that stand for it when it has no
/// template.
pub const KEY_CHARS: usize = 80;

/// The key a record is grouped by: its template, or the first 80 characters
/// of its message when the template is empty.
pub open spec fn summary_key(r: LogRecord) -> Seq<char> {
    if r.template@.len() > 0 {
        r.template@
    } else if r.message@.len() <= KEY_CHARS {
        r.message@
    } else {
        r.message@.take(KEY_CHARS as int)
    }
}

/// The distinct keys of the records selected by `filtered`, in order of
/// first appearance.
pub open spec fn group_keys(records: Seq<LogRecord>, filtered: Seq<usize>) -> Seq<Seq<char>>
    decreases filtered.len(),
{
    if filtered.len() == 0 {
        Seq::empty()
    } else {
        let prev = group_keys(records, filtered.drop_last());
        let k = summary_key(records[filtered.last() as int]);
        if prev.contains(k) {
            prev
        } else {
            prev.push(k)
        }
    }
}

/// How many of the records selected by `filtered` have key `k`.
pub open spec fn key_count(records: Seq<LogRecord>, filtered: Seq<usize>, k: Seq<char>) -> nat
    decreases filtered.len(),
{
    if filtered.len() == 0 {
        0
    } else {
        key_count(records, filtered.drop_last(), k)
            + if summary_key(records[filtered.last() as int]) == k { 1nat } else { 0nat }
    }
}

/// How many of the records selected by `filtered` have key `k` and level `l`.
pub open spec fn key_level_count(records: Seq<LogRecord>, filtered: Seq<usize>, k: Seq<char>, l: Level) -> nat
    decreases filtered.len(),
{
    if filtered.len() == 0 {
        0
    } else {
        let r = records[filtered.last() as int];
        key_level_count(records, filtered.drop_last(), k, l)
            + if summary_key(r) == k && r.level == l { 1nat } else { 0nat }
    }
}

/// `d` is the most frequent level among the records with key `k`, the
/// lowest-ranked one when several are equally frequent.
pub open spec fn is_dominant_level(records: Seq<LogRecord>, filtered: Seq<usize>, k: Seq<char>, d: Level) -> bool {
    &&& forall|l: Level| key_level_count(records, filtered, k, l) <= key_level_count(records, filtered, k, d)
    &&& forall|l: Level| rank(l) < rank(d) ==> key_level_count(records, filtered, k, l) < key_level_count(records, filtered, k, d)
}

/// The position of `k` in `keys`.
pub open spec fn position_of(keys: Seq<Seq<char>>, k: Seq<char>) -> int {
    choose|p: int| 0 <= p < keys.len() && keys[p] == k
}

/// `out` is the template summary of the records selected by `filtered`: one
/// entry per distinct key, with its count and dominant level, ordered by
/// decreasing count, ties in order of first appearance.
pub open spec fn summary_correct(records: Seq<LogRecord>, filtered: Seq<usize>, out: Seq<TemplateSummary>) -> bool {
    let g = group_keys(records, filtered);
    &&& out.len() == g.len()
    &&& forall|i: int| 0 <= i < out.len() ==> g.contains(#[trigger] out[i].template@)
    &&& forall|i: int, j: int| 0 <= i < j < out.len() ==> (#[trigger] out[i]).template@ != (#[trigger] out[j]).template@
    &&& forall|i: int| 0 <= i < out.len() ==> (#[trigger] out[i]).count == key_count(records, filtered, out[i].template@)
    &&& forall|i: int| 0 <= i < out.len() ==> is_dominant_level(records, filtered, (#[trigger] out[i]).template@, out[i].level)
    &&& forall|i: int, j: int| 0 <= i < j < out.len() ==> (#[trigger] out[i]).count > (#[trigger] out[j]).count
        || (out[i].count == out[j].count && position_of(g, out[i].template@) < position_of(g, out[j].template@))
}

/// The level of a rank.
pub open spec fn level_of_rank(i: int) -> Level {
    if i == 0 {
        Level::Verbose
    } else if i == 1 {
        Level::Debug
    } else if i == 2 {
        Level::Info
    } else if i == 3 {
        Level::Warning
    } else if i == 4 {
        Level::Error
    } else if i == 5 {
        Level::Fatal
    } else {
        Level::Unknown
    }
}

/// The level of a rank below 7.
fn level_at(i: usize) -> (r: Level)
    requires
        i < 7,
    ensures
        r == level_of_rank(i as int),
        rank(r) == i,
{
    if i == 0 {
        Level::Verbose
    } else if i == 1 {
        Level::Debug
    } else if i == 2 {
        Level::Info
    } else if i == 3 {
        Level::Warning
    } else if i == 4 {
        Level::Error
    } else if i == 5 {
        Level::Fatal
    } else {
        Level::Unknown
    }
}

/// The key of a record (see `summary_key`).
pub fn record_key(r: &LogRecord) -> (k: Vec<char>)
    ensures
        k@ == summary_key(*r),
{
    if !r.template.as_str().is_empty() {
        chars_of(r.template.as_str())
    } else {
        let m = chars_of(r.message.as_str());
        if m.len() <= KEY_CHARS {
            m
        } else {
            let mut k: Vec<char> = Vec::new();
            let mut i: usize = 0;
            while i < KEY_CHARS
                invariant
                    i <= KEY_CHARS,
                    KEY_CHARS < m.len(),
                    k@ == m@.take(i as int),
                decreases KEY_CHARS - i,
            {
                k.push(m[i]);
                i = i + 1;
                assert(k@ =~= m@.take(i as int));
            }
            k
        }
    }
}

/// Whether two character sequences are equal.
pub fn chars_equal(a: &[char], b: &[char]) -> (r: bool)
    ensures
        r == (a@ == b@),
{
    if a.len() != b.len() {
        return false;
    }
    let mut i: usize = 0;
    while i < a.len()
        invariant
            i <= a.len(),
            a.len() == b.len(),
            forall|k: int| 0 <= k < i ==> a@[k] == b@[k],
        decreases a.len() - i,
    {
        if a[i] != b[i] {
            assert(a@[i as int] != b@[i as int]);
            return false;
        }
        i = i + 1;
    }
    assert(a@ =~= b@);
    true
}

/// One more selected record: how keys, counts and level counts grow.
proof fn lemma_group_step(records: Seq<LogRecord>, filtered: Seq<usize>, p: int)
    requires
        0 <= p < filtered.len(),
    ensures
        ({
            let t = filtered.take(p + 1);
            let f = filtered.take(p);
            let r = records[filtered[p] as int];
            let k = summary_key(r);
            &&& group_keys(records, t) == if group_keys(records, f).contains(k) {
                group_keys(records, f)
            } else {
                group_keys(records, f).push(k)
            }
            &&& forall|x: Seq<char>| #[trigger] key_count(records, t, x)
                == key_count(records, f, x) + if x == k { 1int } else { 0int }
            &&& forall|x: Seq<char>, l: Level| #[trigger] key_level_count(records, t, x, l)
                == key_level_count(records, f, x, l) + if x == k && r.level == l { 1int } else { 0int }
        }),
{
    assert(filtered.take(p + 1).drop_last() =~= filtered.take(p));
}

/// Counts never exceed the number of selected records.
proof fn lemma_counts_bounded(records: Seq<LogRecord>, filtered: Seq<usize>, x: Seq<char>, l: Level)
    ensures
        key_count(records, filtered, x) <= filtered.len(),
        key_level_count(records, filtered, x, l) <= key_count(records, filtered, x),
    decreases filtered.len(),
{
    if filtered.len() > 0 {
        lemma_counts_bounded(records, filtered.drop_last(), x, l);
    }
}

/// The group keys are distinct, and a key is a group key exactly when some
/// selected record has it (that is, when its count is positive).
proof fn lemma_group_keys(records: Seq<LogRecord>, filtered: Seq<usize>)
    ensures
        forall|i: int, j: int| 0 <= i < j < group_keys(records, filtered).len()
            ==> group_keys(records, filtered)[i] != group_keys(records, filtered)[j],
        forall|x: Seq<char>| #[trigger] group_keys(records, filtered).contains(x) <==> key_count(records, filtered, x) > 0,
    decreases filtered.len(),
{
    if filtered.len() > 0 {
        let f = filtered.drop_last();
        lemma_group_keys(records, f);
        let k = summary_key(records[filtered.last() as int]);
        let prev = group_keys(records, f);
        if !prev.contains(k) {
            assert forall|x: Seq<char>| #[trigger] prev.push(k).contains(x) <==> prev.contains(x) || x == k by {
                if prev.contains(x) {
                    let i = choose|i: int| 0 <= i < prev.len() && prev[i] == x;
                    assert(prev.push(k)[i] == x);
                }
                if x == k {
                    assert(prev.push(k)[prev.len() as int] == k);
                }
                if prev.push(k).contains(x) {
                    let i = choose|i: int| 0 <= i < prev.len() + 1 && prev.push(k)[i] == x;
                    if i < prev.len() {
                        assert(prev[i] == x);
                    }
                }
            }
        }
    }
}

/// Whether `x` occurs in `s`.
pub open spec fn listed(s: Seq<usize>, x: int) -> bool {
    exists|a: int| 0 <= a < s.len() && s[a] == x
}

/// Summarises, by template key, the records selected by `filtered` (see
/// `summary_correct`).
pub fn build_template_summary(records: &[LogRecord], filtered: &[usize]) -> (r: Vec<TemplateSummary>)
    requires
        indices_in_bounds(records@, filtered@),
    ensures
        summary_correct(records@, filtered@, r@),
{
    let mut keys: Vec<Vec<char>> = Vec::new();
    let mut counts: Vec<usize> = Vec::new();
    let mut levels: Vec<[usize; 7]> = Vec::new();
    let mut p: usize = 0;
    while p < filtered.len()
        invariant
            p <= filtered.len(),
            indices_in_bounds(records@, filtered@),
            keys.len() == counts.len() && counts.len() == levels.len(),
            keys@.map_values(|k: Vec<char>| k@) == group_keys(records@, filtered@.take(p as int)),
            forall|j: int| 0 <= j < keys.len() ==> #[trigger] counts@[j] == key_count(records@, filtered@.take(p as int), keys@[j]@),
            forall|j: int, l: Level| 0 <= j < keys.len() ==> #[trigger] levels@[j]@[rank(l)]
                == key_level_count(records@, filtered@.take(p as int), keys@[j]@, l),
        decreases filtered.len() - p,
    {
        let ghost f = filtered@.take(p as int);
        let ghost g = group_keys(records@, f);
        proof {
            lemma_group_step(records@, filtered@, p as int);
            lemma_group_keys(records@, f);
        }
        let rec = &records[filtered[p]];
        let k = record_key(rec);
        let li = rec.level.index();
        proof {
            lemma_counts_bounded(records@, f, k@, rec.level);
        }
        let mut j: usize = 0;
        while j < keys.len() && !chars_equal(&keys[j], &k)
            invariant
                j <= keys.len(),
                forall|q: int| 0 <= q < j ==> keys@[q]@ != k@,
            decreases keys.len() - j,
        {
            j = j + 1;
        }
        let ghost t = filtered@.take(p + 1);
        if j < keys.len() {
            assert(keys@[j as int]@ == k@);
            assert(g[j as int] == k@);
            assert(g.contains(k@));
            let c = counts[j];
            counts[j] = c + 1;
            let mut a = levels[j];
            a[li] = a[li] + 1;
            levels[j] = a;
            proof {
                assert forall|q: int, l: Level| 0 <= q < keys.len() implies #[trigger] levels@[q]@[rank(l)]
                    == key_level_count(records@, t, keys@[q]@, l) by {
                    if q != j {
                        assert(keys@[q]@ != k@) by {
                            lemma_group_keys(records@, f);
                            assert(g[q] == keys@[q]@);
                        }
                    }
                }
                assert forall|q: int| 0 <= q < keys.len() implies #[trigger] counts@[q]
                    == key_count(records@, t, keys@[q]@) by {
                    if q != j {
                        assert(keys@[q]@ != k@) by {
                            lemma_group_keys(records@, f);
                            assert(g[q] == keys@[q]@);
                        }
                    }
                }
            }
        } else {
            assert(!g.contains(k@)) by {
                if g.contains(k@) {
                    let q = choose|q: int| 0 <= q < g.len() && g[q] == k@;
                    assert(keys@[q]@ == g[q]);
                }
            }
            let mut a: [usize; 7] = [0, 0, 0, 0, 0, 0, 0];
            a[li] = 1;
            let ghost kv = k@;
            keys.push(k);
            counts.push(1);
            levels.push(a);
            proof {
                assert(keys@.map_values(|x: Vec<char>| x@) =~= g.push(kv));
                assert(key_count(records@, f, kv) == 0);
                assert forall|l: Level| key_level_count(records@, f, kv, l) == 0 by {
                    lemma_counts_bounded(records@, f, kv, l);
                }
                assert forall|q: int, l: Level| 0 <= q < keys.len() implies #[trigger] levels@[q]@[rank(l)]
                    == key_level_count(records@, t, keys@[q]@, l) by {
                    if q < keys.len() - 1 {
                        assert(keys@[q]@ == g[q]);
                        assert(g[q] != kv);
                    }
                }
                assert forall|q: int| 0 <= q < keys.len() implies #[trigger] counts@[q]
                    == key_count(records@, t, keys@[q]@) by {
                    if q < keys.len() - 1 {
                        assert(keys@[q]@ == g[q]);
                        assert(g[q] != kv);
                    }
                }
            }
        }
        p = p + 1;
    }
    assert(filtered@.take(p as int) =~= filtered@);
    let ghost g = group_keys(records@, filtered@);
    proof {
        lemma_group_keys(records@, filtered@);
    }
    // The dominant level of each group.
    let mut dom: Vec<Level> = Vec::new();
    let mut j: usize = 0;
    while j < keys.len()
        invariant
            j <= keys.len(),
            keys.len() == levels.len(),
            dom.len() == j,
            forall|q: int, l: Level| 0 <= q < keys.len() ==> #[trigger] levels@[q]@[rank(l)]
                == key_level_count(records@, filtered@, keys@[q]@, l),
            forall|q: int| 0 <= q < j ==> is_dominant_level(records@, filtered@, keys@[q]@, #[trigger] dom@[q]),
        decreases keys.len() - j,
    {
        let a = levels[j];
        let mut best: usize = 0;
        let mut i: usize = 1;
        while i < 7
            invariant
                1 <= i <= 7,
                best < i,
                forall|q: int| 0 <= q < i ==> a@[q] <= a@[best as int],
                forall|q: int| 0 <= q < best ==> a@[q] < a@[best as int],
            decreases 7 - i,
        {
            if a[i] > a[best] {
                best = i;
            }
            i = i + 1;
        }
        let d = level_at(best);
        proof {
            assert forall|l: Level| key_level_count(records@, filtered@, keys@[j as int]@, l)
                <= key_level_count(records@, filtered@, keys@[j as int]@, d) by {
                assert(a@[rank(l)] == key_level_count(records@, filtered@, keys@[j as int]@, l));
            }
            assert forall|l: Level| rank(l) < rank(d) implies key_level_count(records@, filtered@, keys@[j as int]@, l)
                < key_level_count(records@, filtered@, keys@[j as int]@, d) by {
                assert(a@[rank(l)] == key_level_count(records@, filtered@, keys@[j as int]@, l));
            }
        }
        dom.push(d);
        j = j + 1;
    }
    // Order the groups by decreasing count, ties by first appearance.
    let mut order: Vec<usize> = Vec::new();
    let mut k: usize = 0;
    while k < keys.len()
        invariant
            k <= keys.len(),
            keys.len() == counts.len(),
            order.len() == k,
            forall|a: int| 0 <= a < order.len() ==> #[trigger] order@[a] < k,
            forall|x: int| 0 <= x < k ==> #[trigger] listed(order@, x),
            forall|a: int, b: int| 0 <= a < b < order.len() ==> (#[trigger] order@[a]) != (#[trigger] order@[b]),
            forall|a: int, b: int| 0 <= a < b < order.len() ==> counts@[#[trigger] order@[a] as int] > counts@[#[trigger] order@[b] as int]
                || (counts@[order@[a] as int] == counts@[order@[b] as int] && order@[a] < order@[b]),
        decreases keys.len() - k,
    {
        let mut pos: usize = 0;
        while pos < order.len() && counts[order[pos]] >= counts[k]
            invariant
                pos <= order.len(),
                k < counts.len(),
                forall|a: int| 0 <= a < order.len() ==> #[trigger] order@[a] < k,
                forall|a: int| 0 <= a < pos ==> counts@[#[trigger] order@[a] as int] >= counts@[k as int],
            decreases order.len() - pos,
        {
            pos = pos + 1;
        }
        let ghost old_order = order@;
        order.insert(pos, k);
        proof {
            assert forall|a: int, b: int| 0 <= a < b < order.len() implies counts@[#[trigger] order@[a] as int] > counts@[#[trigger] order@[b] as int]
                || (counts@[order@[a] as int] == counts@[order@[b] as int] && order@[a] < order@[b]) by {
                if b == pos {
                    assert(order@[a] == old_order[a]);
                } else if a == pos {
                    assert(order@[b] == old_order[b - 1]);
                    assert(counts@[old_order[pos as int] as int] < counts@[k as int]);
                    if b - 1 > pos {
                        assert(old_order[pos as int] != old_order[b - 1]);
                    }
                } else if b < pos {
                    assert(order@[a] == old_order[a] && order@[b] == old_order[b]);
                } else if a < pos {
                    assert(order@[a] == old_order[a] && order@[b] == old_order[b - 1]);
                } else {
                    assert(order@[a] == old_order[a - 1] && order@[b] == old_order[b - 1]);
                }
            }
            assert forall|a: int, b: int| 0 <= a < b < order.len() implies (#[trigger] order@[a]) != (#[trigger] order@[b]) by {
                if b == pos {
                    assert(order@[a] == old_order[a]);
                } else if a == pos {
                    assert(order@[b] == old_order[b - 1]);
                } else if b < pos {
                    assert(order@[a] == old_order[a] && order@[b] == old_order[b]);
                } else if a < pos {
                    assert(order@[a] == old_order[a] && order@[b] == old_order[b - 1]);
                } else {
                    assert(order@[a] == old_order[a - 1] && order@[b] == old_order[b - 1]);
                }
            }
            assert forall|x: int| 0 <= x < k + 1 implies #[trigger] listed(order@, x) by {
                if x == k {
                    assert(order@[pos as int] == x);
                } else {
                    assert(listed(old_order, x));
                    let a0 = choose|a: int| 0 <= a < old_order.len() && old_order[a] == x;
                    if a0 < pos {
                        assert(order@[a0] == x);
                    } else {
                        assert(order@[a0 + 1] == x);
                    }
                }
            }
            assert forall|a: int| 0 <= a < order.len() implies #[trigger] order@[a] < k + 1 by {
                if a < pos {
                    assert(order@[a] == old_order[a]);
                } else if a > pos {
                    assert(order@[a] == old_order[a - 1]);
                }
            }
        }
        k = k + 1;
    }
    let mut out: Vec<TemplateSummary> = Vec::new();
    let mut a: usize = 0;
    while a < order.len()
        invariant
            a <= order.len(),
            order.len() == keys.len(),
            keys.len() == counts.len() && counts.len() == dom.len(),
            out.len() == a,
            forall|b: int| 0 <= b < order.len() ==> #[trigger] order@[b] < keys.len(),
            forall|b: int| 0 <= b < a ==> (#[trigger] out@[b]).template@ == keys@[order@[b] as int]@
                && out@[b].count == counts@[order@[b] as int] && out@[b].level == dom@[order@[b] as int],
        decreases order.len() - a,
    {
        let idx = order[a];
        out.push(TemplateSummary { template: string_of(&keys[idx]), count: counts[idx], level: dom[idx] });
        a = a + 1;
    }
    proof {
        assert(g.len() == keys.len());
        assert forall|i: int| 0 <= i < keys.len() implies #[trigger] g[i] == keys@[i]@ by {
            assert(keys@.map_values(|x: Vec<char>| x@)[i] == keys@[i]@);
        }
        assert forall|i: int| 0 <= i < out.len() implies #[trigger] out@[i].template@ == g[order@[i] as int] by {}
        assert forall|i: int| 0 <= i < out.len() implies g.contains(#[trigger] out@[i].template@) by {
            assert(g[order@[i] as int] == out@[i].template@);
        }
        assert forall|i: int| 0 <= i < out.len() implies position_of(g, (#[trigger] out@[i]).template@) == order@[i] as int by {
            let q = position_of(g, out@[i].template@);
            assert(g[order@[i] as int] == out@[i].template@);
        }
        assert forall|i: int, j: int| 0 <= i < j < out.len() implies (#[trigger] out@[i]).template@ != (#[trigger] out@[j]).template@ by {
            assert(out@[i].template@ == g[order@[i] as int]);
            assert(out@[j].template@ == g[order@[j] as int]);
            assert(order@[i] != order@[j]);
        }
        assert forall|i: int| 0 <= i < out.len() implies (#[trigger] out@[i]).count == key_count(records@, filtered@, out@[i].template@) by {}
        assert forall|i: int| 0 <= i < out.len() implies is_dominant_level(records@, filtered@, (#[trigger] out@[i]).template@, out@[i].level) by {}
        assert forall|i: int, j: int| 0 <= i < j < out.len() implies (#[trigger] out@[i]).count > (#[trigger] out@[j]).count
            || (out@[i].count == out@[j].count && position_of(g, out@[i].template@) < position_of(g, out@[j].template@)) by {
            assert(position_of(g, out@[i].template@) == order@[i] as int);
            assert(position_of(g, out@[j].template@) == order@[j] as int);
        }
    }
    out
}

/// The sum of the counts of `keys` among the records selected by `filtered`.
pub open spec fn counts_sum(records: Seq<LogRecord>, filtered: Seq<usize>, keys: Seq<Seq<char>>) -> nat
    decreases keys.len(),
{
    if keys.len() == 0 {
        0
    } else {
        counts_sum(records, filtered, keys.drop_last()) + key_count(records, filtered, keys.last())
    }
}

/// The sum of the counts of a summary.
pub open spec fn summary_total(out: Seq<TemplateSummary>) -> nat
    decreases out.len(),
{
    if out.len() == 0 {
        0
    } else {
        summary_total(out.drop_last()) + out.last().count as nat
    }
}

/// Taking one key out of a sequence of keys takes its count out of the sum.
proof fn lemma_counts_sum_remove(records: Seq<LogRecord>, filtered: Seq<usize>, keys: Seq<Seq<char>>, i: int)
    requires
        0 <= i < keys.len(),
    ensures
        counts_sum(records, filtered, keys) == counts_sum(records, filtered, keys.remove(i))
            + key_count(records, filtered, keys[i]),
    decreases keys.len(),
{
    if i == keys.len() - 1 {
        assert(keys.remove(i) =~= keys.drop_last());
    } else {
        lemma_counts_sum_remove(records, filtered, keys.drop_last(), i);
        assert(keys.remove(i).drop_last() =~= keys.drop_last().remove(i));
        assert(keys.remove(i).last() == keys.last());
    }
}

/// Two duplicate-free sequences of the same keys have the same sum of counts.
proof fn lemma_counts_sum_reordered(records: Seq<LogRecord>, filtered: Seq<usize>, a: Seq<Seq<char>>, b: Seq<Seq<char>>)
    requires
        a.len() == b.len(),
        a.no_duplicates(),
        b.no_duplicates(),
        forall|x: Seq<char>| a.contains(x) ==> b.contains(x),
    ensures
        counts_sum(records, filtered, a) == counts_sum(records, filtered, b),
    decreases a.len(),
{
    if a.len() > 0 {
        let x = a.last();
        assert(a.contains(x)) by {
            assert(a[a.len() - 1] == x);
        }
        let j = choose|j: int| 0 <= j < b.len() && b[j] == x;
        let a1 = a.drop_last();
        let b1 = b.remove(j);
        b.remove_ensures(j);
        assert forall|y: Seq<char>| a1.contains(y) implies b1.contains(y) by {
            let p = choose|p: int| 0 <= p < a1.len() && a1[p] == y;
            assert(a[p] == y);
            assert(a[a.len() - 1] == x);
            assert(b.contains(y));
            let q = choose|q: int| 0 <= q < b.len() && b[q] == y;
            if q < j {
                assert(b1[q] == y);
            } else {
                assert(b1[q - 1] == y);
            }
        }
        assert forall|i: int, k: int| 0 <= i < b1.len() && 0 <= k < b1.len() && i != k implies b1[i] != b1[k] by {
            let i2 = if i < j { i } else { i + 1 };
            let k2 = if k < j { k } else { k + 1 };
            assert(b1[i] == b[i2]);
            assert(b1[k] == b[k2]);
        }
        assert forall|i: int, k: int| 0 <= i < a1.len() && 0 <= k < a1.len() && i != k implies a1[i] != a1[k] by {
            assert(a1[i] == a[i]);
            assert(a1[k] == a[k]);
        }
        lemma_counts_sum_reordered(records, filtered, a1, b1);
        lemma_counts_sum_remove(records, filtered, b, j);
    }
}

/// One more selected record adds one to the sum over duplicate-free keys
/// exactly when they contain its key.
proof fn lemma_counts_sum_step(records: Seq<LogRecord>, filtered: Seq<usize>, keys: Seq<Seq<char>>)
    requires
        filtered.len() > 0,
        keys.no_duplicates(),
    ensures
        counts_sum(records, filtered, keys) == counts_sum(records, filtered.drop_last(), keys)
            + if keys.contains(summary_key(records[filtered.last() as int])) { 1int } else { 0int },
    decreases keys.len(),
{
    if keys.len() > 0 {
        let k = summary_key(records[filtered.last() as int]);
        let k1 = keys.drop_last();
        assert forall|i: int, j: int| 0 <= i < k1.len() && 0 <= j < k1.len() && i != j implies k1[i] != k1[j] by {
            assert(k1[i] == keys[i]);
            assert(k1[j] == keys[j]);
        }
        lemma_counts_sum_step(records, filtered, k1);
        if keys.last() == k {
            assert(keys[keys.len() - 1] == k);
            assert(!k1.contains(k)) by {
                if k1.contains(k) {
                    let p = choose|p: int| 0 <= p < k1.len() && k1[p] == k;
                    assert(keys[p] == k);
                }
            }
        } else {
            assert(keys.contains(k) == k1.contains(k)) by {
                if keys.contains(k) {
                    let p = choose|p: int| 0 <= p < keys.len() && keys[p] == k;
                    assert(k1[p] == k);
                }
                if k1.contains(k) {
                    let p = choose|p: int| 0 <= p < k1.len() && k1[p] == k;
                    assert(keys[p] == k);
                }
            }
        }
    }
}

/// The group keys have no duplicates.
proof fn lemma_group_keys_distinct(records: Seq<LogRecord>, filtered: Seq<usize>)
    ensures
        group_keys(records, filtered).no_duplicates(),
{
    lemma_group_keys(records, filtered);
    let g = group_keys(records, filtered);
    assert forall|i: int, j: int| 0 <= i < g.len() && 0 <= j < g.len() && i != j implies g[i] != g[j] by {
        if i > j {
            assert(g[j] != g[i]);
        }
    }
}

/// The counts of the group keys add up to the number of selected records.
proof fn lemma_group_counts_total(records: Seq<LogRecord>, filtered: Seq<usize>)
    ensures
        counts_sum(records, filtered, group_keys(records, filtered)) == filtered.len(),
    decreases filtered.len(),
{
    if filtered.len() > 0 {
        let f = filtered.drop_last();
        lemma_group_counts_total(records, f);
        lemma_group_keys(records, f);
        lemma_group_keys_distinct(records, f);
        let g1 = group_keys(records, f);
        let k = summary_key(records[filtered.last() as int]);
        lemma_counts_sum_step(records, filtered, g1);
        if !g1.contains(k) {
            let g = g1.push(k);
            assert(g.drop_last() =~= g1);
            assert(key_count(records, f, k) == 0);
        }
    }
}

/// The total of a summary is the sum of the counts of its templates.
proof fn lemma_summary_total(records: Seq<LogRecord>, filtered: Seq<usize>, out: Seq<TemplateSummary>)
    requires
        forall|i: int| 0 <= i < out.len() ==> (#[trigger] out[i]).count == key_count(records, filtered, out[i].template@),
    ensures
        summary_total(out) == counts_sum(records, filtered, out.map_values(|s: TemplateSummary| s.template@)),
    decreases out.len(),
{
    if out.len() > 0 {
        let o1 = out.drop_last();
        assert forall|i: int| 0 <= i < o1.len() implies (#[trigger] o1[i]).count == key_count(records, filtered, o1[i].template@) by {
            assert(o1[i] == out[i]);
        }
        lemma_summary_total(records, filtered, o1);
        assert(out.map_values(|s: TemplateSummary| s.template@).drop_last() =~= o1.map_values(|s: TemplateSummary| s.template@));
        assert(out[out.len() - 1].count == key_count(records, filtered, out[out.len() - 1].template@));
    }
}

/// The counts of a template summary add up to the number of records it
/// summarises.
pub proof fn law_summary_counts_add_up(records: Seq<LogRecord>, filtered: Seq<usize>, out: Seq<TemplateSummary>)
    requires
        summary_correct(records, filtered, out),
    ensures
        summary_total(out) == filtered.len(),
{
    let g = group_keys(records, filtered);
    let a = out.map_values(|s: TemplateSummary| s.template@);
    lemma_summary_total(records, filtered, out);
    lemma_group_keys_distinct(records, filtered);
    assert forall|i: int, j: int| 0 <= i < a.len() && 0 <= j < a.len() && i != j implies a[i] != a[j] by {
        if i < j {
            assert(out[i].template@ != out[j].template@);
        } else {
            assert(out[j].template@ != out[i].template@);
        }
    }
    assert forall|x: Seq<char>| a.contains(x) implies g.contains(x) by {
        let p = choose|p: int| 0 <= p < a.len() && a[p] == x;
        assert(a[p] == out[p].template@);
    }
    lemma_counts_sum_reordered(records, filtered, a, g);
    lemma_group_counts_total(records, filtered);
}

/// A key count is the tally of the records with that key.
proof fn lemma_key_count_tally(records: Seq<LogRecord>, s: Seq<usize>, k: Seq<char>)
    ensures
        key_count(records, s, k) == tally(records, s, |r: LogRecord| summary_key(r) == k),
    decreases s.len(),
{
    if s.len() > 0 {
        lemma_key_count_tally(records, s.drop_last(), k);
    }
}

/// A key-and-level count is the tally of the records with that key and level.
proof fn lemma_key_level_count_tally(records: Seq<LogRecord>, s: Seq<usize>, k: Seq<char>, l: Level)
    ensures
        key_level_count(records, s, k, l) == tally(records, s, |r: LogRecord| summary_key(r) == k && r.level == l),
    decreases s.len(),
{
    if s.len() > 0 {
        lemma_key_level_count_tally(records, s.drop_last(), k, l);
    }
}

/// The dominant level of a key is determined by the level counts.
proof fn lemma_dominant_unique(records: Seq<LogRecord>, a: Seq<usize>, b: Seq<usize>, k: Seq<char>, d1: Level, d2: Level)
    requires
        forall|l: Level| key_level_count(records, a, k, l) == key_level_count(records, b, k, l),
        is_dominant_level(records, a, k, d1),
        is_dominant_level(records, b, k, d2),
    ensures
        d1 == d2,
{
    assert(key_level_count(records, a, k, d1) == key_level_count(records, b, k, d1));
    assert(key_level_count(records, a, k, d2) == key_level_count(records, b, k, d2));
    if rank(d1) < rank(d2) {
        assert(key_level_count(records, b, k, d1) < key_level_count(records, b, k, d2));
    } else if rank(d2) < rank(d1) {
        assert(key_level_count(records, a, k, d2) < key_level_count(records, a, k, d1));
    }
}

/// Law: summaries of the same records selected in two orders list the same
/// templates, each with the same count and dominant level.
pub proof fn law_summary_reorder(
    records: Seq<LogRecord>,
    a: Seq<usize>,
    b: Seq<usize>,
    out_a: Seq<TemplateSummary>,
    out_b: Seq<TemplateSummary>,
)
    requires
        a.to_multiset() == b.to_multiset(),
        summary_correct(records, a, out_a),
        summary_correct(records, b, out_b),
    ensures
        out_a.len() == out_b.len(),
        forall|i: int| 0 <= i < out_a.len() ==> exists|j: int| 0 <= j < out_b.len()
            && (#[trigger] out_b[j]).template@ == (#[trigger] out_a[i]).template@
            && out_b[j].count == out_a[i].count && out_b[j].level == out_a[i].level,
{
    assert forall|x: Seq<char>| #[trigger] key_count(records, a, x) == key_count(records, b, x) by {
        lemma_key_count_tally(records, a, x);
        lemma_key_count_tally(records, b, x);
        lemma_tally_reorder(records, a, b, |r: LogRecord| summary_key(r) == x);
    }
    assert forall|x: Seq<char>, l: Level| #[trigger] key_level_count(records, a, x, l) == key_level_count(records, b, x, l) by {
        lemma_key_level_count_tally(records, a, x, l);
        lemma_key_level_count_tally(records, b, x, l);
        lemma_tally_reorder(records, a, b, |r: LogRecord| summary_key(r) == x && r.level == l);
    }
    let ga = group_keys(records, a);
    let gb = group_keys(records, b);
    lemma_group_keys(records, a);
    lemma_group_keys(records, b);
    lemma_group_keys_distinct(records, a);
    lemma_group_keys_distinct(records, b);
    assert(ga.to_set() =~= gb.to_set()) by {
        assert forall|x: Seq<char>| ga.to_set().contains(x) == gb.to_set().contains(x) by {
            assert(ga.contains(x) == (key_count(records, a, x) > 0));
            assert(gb.contains(x) == (key_count(records, b, x) > 0));
        }
    }
    ga.unique_seq_to_set();
    gb.unique_seq_to_set();
    let tb = out_b.map_values(|s: TemplateSummary| s.template@);
    assert forall|i: int, j: int| 0 <= i < tb.len() && 0 <= j < tb.len() && i != j implies tb[i] != tb[j] by {
        if i < j {
            assert(out_b[i].template@ != out_b[j].template@);
        } else {
            assert(out_b[j].template@ != out_b[i].template@);
        }
    }
    tb.unique_seq_to_set();
    assert(tb.to_set().subset_of(gb.to_set())) by {
        assert forall|x: Seq<char>| tb.to_set().contains(x) implies gb.to_set().contains(x) by {
            let p = choose|p: int| 0 <= p < tb.len() && tb[p] == x;
            assert(tb[p] == out_b[p].template@);
        }
    }
    vstd::set_lib::lemma_subset_equality(tb.to_set(), gb.to_set());
    assert forall|i: int| 0 <= i < out_a.len() implies exists|j: int| 0 <= j < out_b.len()
        && (#[trigger] out_b[j]).template@ == (#[trigger] out_a[i]).template@
        && out_b[j].count == out_a[i].count && out_b[j].level == out_a[i].level by {
        let t = out_a[i].template@;
        assert(ga.contains(t));
        assert(gb.to_set().contains(t));
        assert(tb.to_set().contains(t));
        let j = choose|j: int| 0 <= j < tb.len() && tb[j] == t;
        assert(out_b[j].template@ == t);
        lemma_dominant_unique(records, a, b, t, out_a[i].level, out_b[j].level);
    }
}

/// Law: a record with a template is grouped under its whole template; a
/// record without one under its message, cut to its first 80 characters.
pub proof fn law_summary_key(r: LogRecord)
    ensures
        r.template@.len() > 0 ==> summary_key(r) == r.template@,
        r.template@.len() == 0 ==> summary_key(r) == r.message@.subrange(
            0,
            if r.message@.len() <= 80 { r.message@.len() as int } else { 80 },
        ),
{
    if r.template@.len() == 0 && r.message@.len() <= 80 {
        assert(r.message@.subrange(0, r.message@.len() as int) =~= r.message@);
    }
}

/// A selected record's key has a positive count.
proof fn lemma_selected_key_counted(records: Seq<LogRecord>, filtered: Seq<usize>, p: int)
    requires
        0 <= p < filtered.len(),
    ensures
        key_count(records, filtered, summary_key(records[filtered[p] as int])) > 0,
    decreases filtered.len(),
{
    if p < filtered.len() - 1 {
        lemma_selected_key_counted(records, filtered.drop_last(), p);
        assert(filtered.drop_last()[p] == filtered[p]);
    }
}

/// Law: a template summary has an entry for the key of every selected
/// record; in particular a selected record with a template has an entry
/// with that whole template, counting it.
pub proof fn law_summary_lists_selected(records: Seq<LogRecord>, filtered: Seq<usize>, out: Seq<TemplateSummary>)
    requires
        summary_correct(records, filtered, out),
    ensures
        forall|p: int| 0 <= p < filtered.len() ==> exists|i: int| 0 <= i < out.len()
            && (#[trigger] out[i]).template@ == summary_key(#[trigger] records[filtered[p] as int]) && out[i].count >= 1,
        forall|p: int| 0 <= p < filtered.len() && (#[trigger] records[filtered[p] as int]).template@.len() > 0
            ==> exists|i: int| 0 <= i < out.len() && (#[trigger] out[i]).template@ == records[filtered[p] as int].template@,
{
    let g = group_keys(records, filtered);
    lemma_group_keys(records, filtered);
    lemma_group_keys_distinct(records, filtered);
    g.unique_seq_to_set();
    let t = out.map_values(|s: TemplateSummary| s.template@);
    assert forall|i: int, j: int| 0 <= i < t.len() && 0 <= j < t.len() && i != j implies t[i] != t[j] by {
        if i < j {
            assert(out[i].template@ != out[j].template@);
        } else {
            assert(out[j].template@ != out[i].template@);
        }
    }
    t.unique_seq_to_set();
    assert(t.to_set().subset_of(g.to_set())) by {
        assert forall|x: Seq<char>| t.to_set().contains(x) implies g.to_set().contains(x) by {
            let q = choose|q: int| 0 <= q < t.len() && t[q] == x;
            assert(t[q] == out[q].template@);
        }
    }
    vstd::set_lib::lemma_subset_equality(t.to_set(), g.to_set());
    assert forall|p: int| 0 <= p < filtered.len() implies exists|i: int| 0 <= i < out.len()
        && (#[trigger] out[i]).template@ == summary_key(#[trigger] records[filtered[p] as int]) && out[i].count >= 1 by {
        let k = summary_key(records[filtered[p] as int]);
        lemma_selected_key_counted(records, filtered, p);
        assert(g.contains(k));
        assert(g.to_set().contains(k));
        assert(t.to_set().contains(k));
        let i = choose|i: int| 0 <= i < t.len() && t[i] == k;
        assert(out[i].template@ == k);
    }
    assert forall|p: int| 0 <= p < filtered.len() && (#[trigger] records[filtered[p] as int]).template@.len() > 0
        implies exists|i: int| 0 <= i < out.len() && (#[trigger] out[i]).template@ == records[filtered[p] as int].template@ by {
        let k = summary_key(records[filtered[p] as int]);
        assert(k == records[filtered[p] as int].template@);
        lemma_selected_key_counted(records, filtered, p);
        assert(g.to_set().contains(k));
        assert(t.to_set().contains(k));
        let i = choose|i: int| 0 <= i < t.len() && t[i] == k;
        assert(out[i].template@ == k);
    }
}

} // verus!
