//! The persisted time series: a newline-delimited log of encoded
//! snapshots, held here as its in-memory line image. A record is the
//! snapshot's eleven fields in decimal, separated by single spaces.
//! Appending adds one line; loading decodes every line and skips the
//! malformed ones; retention keeps the newest records, oldest first.
//!
//! The hosting process mirrors this image to the log file: it reads the
//! file into [`Storage::from_log`] and writes [`Storage::to_log`] back.

use vstd::prelude::*;

use crate::monitor::SystemMetrics;
use crate::numfmt::{
    digits_value, format_u64, is_digit_char, lemma_u64_digits_value, parse_u64_range,
    spec_u64_digits, valid_u64_digits,
};
use crate::textscan::{has_no_char, join_char, lemma_split_join, split_char, split_ranges};

verus! {

/// The eleven fields of one record, in order.
pub open spec fn record_fields(m: SystemMetrics) -> Seq<Seq<char>> {
    seq![
        spec_u64_digits(m.timestamp as nat),
        spec_u64_digits(m.cpu_usage as nat),
        spec_u64_digits(m.memory_used as nat),
        spec_u64_digits(m.memory_total as nat),
        spec_u64_digits(m.memory_usage_percent as nat),
        spec_u64_digits(m.disk_used as nat),
        spec_u64_digits(m.disk_total as nat),
        spec_u64_digits(m.disk_usage_percent as nat),
        spec_u64_digits(m.network_rx as nat),
        spec_u64_digits(m.network_tx as nat),
        spec_u64_digits(m.processes_count as nat),
    ]
}

/// One encoded record: the fields joined by single spaces.
pub open spec fn spec_encode_record(m: SystemMetrics) -> Seq<char> {
    join_char(record_fields(m), ' ')
}

/// Decodes one line: a record exactly when it splits into eleven valid
/// decimal fields.
pub open spec fn spec_decode_record(s: Seq<char>) -> Option<SystemMetrics> {
    let parts = split_char(s, ' ');
    if parts.len() == 11 && (forall|k: int| 0 <= k < 11 ==> valid_u64_digits(#[trigger] parts[k])) {
        Some(
            SystemMetrics {
                timestamp: digits_value(parts[0]) as u64,
                cpu_usage: digits_value(parts[1]) as u64,
                memory_used: digits_value(parts[2]) as u64,
                memory_total: digits_value(parts[3]) as u64,
                memory_usage_percent: digits_value(parts[4]) as u64,
                disk_used: digits_value(parts[5]) as u64,
                disk_total: digits_value(parts[6]) as u64,
                disk_usage_percent: digits_value(parts[7]) as u64,
                network_rx: digits_value(parts[8]) as u64,
                network_tx: digits_value(parts[9]) as u64,
                processes_count: digits_value(parts[10]) as u64,
            },
        )
    } else {
        None
    }
}

/// Digit runs contain no separator.
pub proof fn lemma_digits_no_char(s: Seq<char>, c: char)
    requires
        crate::numfmt::all_digit_chars(s),
        c < '0' || c > '9',
    ensures
        has_no_char(s, c),
{
    assert forall|i: int| 0 <= i < s.len() implies s[i] != c by {
        assert(is_digit_char(s[i]));
    }
}

/// Decoding inverts encoding: every snapshot's record reads back as that
/// snapshot.
pub proof fn lemma_decode_encode(m: SystemMetrics)
    ensures
        spec_decode_record(spec_encode_record(m)) == Some(m),
{
    let fields = record_fields(m);
    assert forall|k: int| 0 <= k < 11 implies has_no_char(#[trigger] fields[k], ' ') by {
        lemma_field_valid(m, k);
        lemma_digits_no_char(fields[k], ' ');
    }
    lemma_split_join(fields, ' ');
    let parts = split_char(spec_encode_record(m), ' ');
    assert(parts =~= fields);
    assert forall|k: int| 0 <= k < 11 implies valid_u64_digits(#[trigger] parts[k]) by {
        lemma_field_valid(m, k);
    }
    lemma_field_valid(m, 0);
    lemma_field_valid(m, 1);
    lemma_field_valid(m, 2);
    lemma_field_valid(m, 3);
    lemma_field_valid(m, 4);
    lemma_field_valid(m, 5);
    lemma_field_valid(m, 6);
    lemma_field_valid(m, 7);
    lemma_field_valid(m, 8);
    lemma_field_valid(m, 9);
    lemma_field_valid(m, 10);
}

/// Each encoded field is a valid decimal run reading back as the field's
/// value.
pub proof fn lemma_field_valid(m: SystemMetrics, k: int)
    requires
        0 <= k < 11,
    ensures
        valid_u64_digits(record_fields(m)[k]),
        crate::numfmt::all_digit_chars(record_fields(m)[k]),
        digits_value(record_fields(m)[k]) == spec_field_value(m, k),
{
    lemma_u64_digits_value(spec_field_value(m, k));
}

/// The numeric value of field `k`.
pub open spec fn spec_field_value(m: SystemMetrics, k: int) -> nat {
    if k == 0 {
        m.timestamp as nat
    } else if k == 1 {
        m.cpu_usage as nat
    } else if k == 2 {
        m.memory_used as nat
    } else if k == 3 {
        m.memory_total as nat
    } else if k == 4 {
        m.memory_usage_percent as nat
    } else if k == 5 {
        m.disk_used as nat
    } else if k == 6 {
        m.disk_total as nat
    } else if k == 7 {
        m.disk_usage_percent as nat
    } else if k == 8 {
        m.network_rx as nat
    } else if k == 9 {
        m.network_tx as nat
    } else {
        m.processes_count as nat
    }
}

/// Joining one more segment appends a separator and the segment.
pub proof fn lemma_join_push(segs: Seq<Seq<char>>, x: Seq<char>, c: char)
    requires
        segs.len() >= 1,
    ensures
        join_char(segs.push(x), c) =~= join_char(segs, c) + seq![c] + x,
    decreases segs.len(),
{
    let p = segs.push(x);
    assert(p[0] == segs[0]);
    if segs.len() == 1 {
        assert(p.drop_first() =~= seq![x]);
        assert(join_char(seq![x], c) == x);
    } else {
        assert(p.drop_first() =~= segs.drop_first().push(x));
        lemma_join_push(segs.drop_first(), x, c);
        assert(join_char(p, c) =~= p[0] + seq![c] + join_char(segs.drop_first().push(x), c));
    }
}

/// Joins the given segments with single spaces.
pub fn join_with_space(fields: &Vec<String>) -> (r: String)
    requires
        fields@.len() >= 1,
    ensures
        r@ == join_char(fields.deep_view(), ' '),
{
    let ghost dv = fields.deep_view();
    let mut r = fields[0].clone();
    proof {
        reveal_strlit(" ");
        assert(dv.take(1) =~= seq![dv[0]]);
        assert(join_char(dv.take(1), ' ') == dv[0]);
    }
    let n = fields.len();
    let mut i: usize = 1;
    while i < n
        invariant
            1 <= i <= n == fields@.len(),
            dv =~= fields.deep_view(),
            " "@ =~= seq![' '],
            r@ =~= join_char(dv.take(i as int), ' '),
        decreases n - i,
    {
        r.append(" ");
        r.append(fields[i].as_str());
        proof {
            assert(dv.take(i as int + 1) =~= dv.take(i as int).push(dv[i as int]));
            lemma_join_push(dv.take(i as int), dv[i as int], ' ');
            assert(fields@[i as int]@ == dv[i as int]);
        }
        i = i + 1;
    }
    proof {
        assert(dv.take(n as int) =~= dv);
    }
    r
}

/// Encodes one snapshot as a log line.
pub fn encode_record(m: &SystemMetrics) -> (r: String)
    ensures
        r@ == spec_encode_record(*m),
{
    let mut fields: Vec<String> = Vec::new();
    fields.push(format_u64(m.timestamp));
    fields.push(format_u64(m.cpu_usage));
    fields.push(format_u64(m.memory_used));
    fields.push(format_u64(m.memory_total));
    fields.push(format_u64(m.memory_usage_percent));
    fields.push(format_u64(m.disk_used));
    fields.push(format_u64(m.disk_total));
    fields.push(format_u64(m.disk_usage_percent));
    fields.push(format_u64(m.network_rx));
    fields.push(format_u64(m.network_tx));
    fields.push(format_u64(m.processes_count));
    proof {
        assert(fields.deep_view() =~= record_fields(*m));
    }
    join_with_space(&fields)
}

/// Decodes one log line, `None` for a malformed line.
pub fn decode_record(line: &str) -> (r: Option<SystemMetrics>)
    ensures
        r == spec_decode_record(line@),
{
    let parts = split_ranges(line, ' ');
    if parts.len() != 11 {
        return None;
    }
    let ghost specs = split_char(line@, ' ');
    let mut vals: Vec<u64> = Vec::new();
    let mut k: usize = 0;
    while k < 11
        invariant
            k <= 11,
            parts@.len() == 11,
            specs =~= split_char(line@, ' '),
            specs.len() == 11,
            forall|j: int|
                0 <= j < 11 ==> {
                    &&& #[trigger] parts@[j].0 <= parts@[j].1 <= line@.len()
                    &&& line@.subrange(parts@[j].0 as int, parts@[j].1 as int) =~= specs[j]
                },
            vals@.len() == k,
            forall|j: int|
                0 <= j < k ==> valid_u64_digits(#[trigger] specs[j]) && vals@[j] == digits_value(
                    specs[j],
                ),
        decreases 11 - k,
    {
        let p = parts[k];
        match parse_u64_range(line, p.0, p.1) {
            Some(v) => {
                vals.push(v);
            },
            None => {
                proof {
                    assert(!valid_u64_digits(specs[k as int]));
                }
                return None;
            },
        }
        k = k + 1;
    }
    Some(
        SystemMetrics {
            timestamp: vals[0],
            cpu_usage: vals[1],
            memory_used: vals[2],
            memory_total: vals[3],
            memory_usage_percent: vals[4],
            disk_used: vals[5],
            disk_total: vals[6],
            disk_usage_percent: vals[7],
            network_rx: vals[8],
            network_tx: vals[9],
            processes_count: vals[10],
        },
    )
}

/// The snapshots a sequence of log lines holds: each line decoded in
/// order, malformed lines skipped.
pub open spec fn records_of(lines: Seq<Seq<char>>) -> Seq<SystemMetrics>
    decreases lines.len(),
{
    if lines.len() == 0 {
        Seq::<SystemMetrics>::empty()
    } else {
        (match spec_decode_record(lines[0]) {
            Some(m) => seq![m],
            None => Seq::<SystemMetrics>::empty(),
        }) + records_of(lines.drop_first())
    }
}

/// Appending one line appends its record, or nothing when malformed.
pub proof fn lemma_records_of_push(lines: Seq<Seq<char>>, l: Seq<char>)
    ensures
        records_of(lines.push(l)) =~= records_of(lines) + (match spec_decode_record(l) {
            Some(m) => seq![m],
            None => Seq::<SystemMetrics>::empty(),
        }),
    decreases lines.len(),
{
    let opt = match spec_decode_record(l) {
        Some(m) => seq![m],
        None => Seq::<SystemMetrics>::empty(),
    };
    if lines.len() == 0 {
        assert(lines.push(l)[0] == l);
        assert(lines.push(l).drop_first() =~= Seq::<Seq<char>>::empty());
        assert(records_of(Seq::<Seq<char>>::empty()) =~= Seq::<SystemMetrics>::empty());
        assert(records_of(lines.push(l)) =~= opt + Seq::<SystemMetrics>::empty());
        assert(records_of(lines) =~= Seq::<SystemMetrics>::empty());
        assert(opt + Seq::<SystemMetrics>::empty() =~= Seq::<SystemMetrics>::empty() + opt);
    } else {
        let hd = match spec_decode_record(lines[0]) {
            Some(m) => seq![m],
            None => Seq::<SystemMetrics>::empty(),
        };
        assert(lines.push(l)[0] == lines[0]);
        assert(lines.push(l).drop_first() =~= lines.drop_first().push(l));
        lemma_records_of_push(lines.drop_first(), l);
        assert(records_of(lines.push(l)) =~= hd + records_of(lines.drop_first().push(l)));
        assert(records_of(lines) =~= hd + records_of(lines.drop_first()));
        assert(hd + (records_of(lines.drop_first()) + opt) =~= (hd + records_of(
            lines.drop_first(),
        )) + opt);
    }
}

/// The lines that encode a sequence of snapshots.
pub open spec fn encoded_lines(ms: Seq<SystemMetrics>) -> Seq<Seq<char>> {
    ms.map_values(|m: SystemMetrics| spec_encode_record(m))
}

/// Round trip of the store: lines encoding the snapshots `ms` load back
/// as exactly `ms`, in order.
pub proof fn lemma_store_round_trip(ms: Seq<SystemMetrics>)
    ensures
        records_of(encoded_lines(ms)) =~= ms,
    decreases ms.len(),
{
    if ms.len() == 0 {
    } else {
        let lines = encoded_lines(ms);
        lemma_decode_encode(ms[0]);
        assert(lines[0] == spec_encode_record(ms[0]));
        assert(lines.drop_first() =~= encoded_lines(ms.drop_first()));
        lemma_store_round_trip(ms.drop_first());
        assert(records_of(lines) =~= seq![ms[0]] + records_of(encoded_lines(ms.drop_first())));
        assert(seq![ms[0]] + ms.drop_first() =~= ms);
    }
}

/// Corrupt-line tolerance: a malformed line between two groups of lines
/// contributes nothing; the records are those of the surrounding lines.
pub proof fn lemma_records_skip_malformed(pre: Seq<Seq<char>>, bad: Seq<char>, post: Seq<Seq<char>>)
    requires
        spec_decode_record(bad) is None,
    ensures
        records_of(pre + seq![bad] + post) =~= records_of(pre + post),
    decreases pre.len(),
{
    if pre.len() == 0 {
        let all = pre + seq![bad] + post;
        assert(all[0] == bad);
        assert(all.drop_first() =~= post);
        assert(pre + post =~= post);
    } else {
        let all = pre + seq![bad] + post;
        assert(all[0] == pre[0]);
        assert(all.drop_first() =~= pre.drop_first() + seq![bad] + post);
        lemma_records_skip_malformed(pre.drop_first(), bad, post);
        let rest = pre + post;
        assert(rest[0] == pre[0]);
        assert(rest.drop_first() =~= pre.drop_first() + post);
    }
}

/// The text of the log file: every line followed by a newline.
pub open spec fn log_text(lines: Seq<Seq<char>>) -> Seq<char>
    decreases lines.len(),
{
    if lines.len() == 0 {
        Seq::<char>::empty()
    } else {
        lines[0] + seq!['\n'] + log_text(lines.drop_first())
    }
}

/// One more line appends its text and a newline.
pub proof fn lemma_log_text_push(lines: Seq<Seq<char>>, l: Seq<char>)
    ensures
        log_text(lines.push(l)) =~= log_text(lines) + l + seq!['\n'],
    decreases lines.len(),
{
    let p = lines.push(l);
    if lines.len() == 0 {
        assert(p[0] == l);
        assert(p.drop_first() =~= Seq::<Seq<char>>::empty());
        assert(log_text(Seq::<Seq<char>>::empty()) =~= Seq::<char>::empty());
    } else {
        assert(p[0] == lines[0]);
        assert(p.drop_first() =~= lines.drop_first().push(l));
        lemma_log_text_push(lines.drop_first(), l);
        assert(log_text(p) =~= p[0] + seq!['\n'] + log_text(lines.drop_first().push(l)));
    }
}

/// The empty line holds no record.
pub proof fn lemma_decode_empty()
    ensures
        spec_decode_record(Seq::<char>::empty()) is None,
{
    assert(split_char(Seq::<char>::empty(), ' ') =~= seq![Seq::<char>::empty()]);
}

/// Reading the written file back: splitting the log text on newlines
/// yields the lines plus one trailing empty segment, and the records
/// survive unchanged.
pub proof fn lemma_log_text_round_trip(lines: Seq<Seq<char>>)
    requires
        forall|i: int| 0 <= i < lines.len() ==> has_no_char(#[trigger] lines[i], '\n'),
    ensures
        split_char(log_text(lines), '\n') =~= lines.push(Seq::<char>::empty()),
        records_of(split_char(log_text(lines), '\n')) =~= records_of(lines),
    decreases lines.len(),
{
    if lines.len() == 0 {
        assert(log_text(lines) =~= Seq::<char>::empty());
        assert(split_char(Seq::<char>::empty(), '\n') =~= seq![Seq::<char>::empty()]);
        assert(lines.push(Seq::<char>::empty()) =~= seq![Seq::<char>::empty()]);
    } else {
        let rest = lines.drop_first();
        assert(forall|i: int|
            0 <= i < rest.len() ==> has_no_char(#[trigger] rest[i], '\n')) by {
            assert(forall|i: int| 0 <= i < rest.len() ==> rest[i] == lines[i + 1]);
        }
        lemma_log_text_round_trip(rest);
        let rt = log_text(rest);
        assert(log_text(lines) =~= lines[0] + (seq!['\n'] + rt));
        crate::textscan::lemma_split_sep(rt, '\n');
        crate::textscan::lemma_split_prepend(lines[0], seq!['\n'] + rt, '\n');
        let inner = split_char(seq!['\n'] + rt, '\n');
        assert(inner[0] =~= Seq::<char>::empty());
        assert(lines[0] + inner[0] =~= lines[0]);
        assert(inner.drop_first() =~= split_char(rt, '\n'));
        assert(split_char(log_text(lines), '\n') =~= seq![lines[0]] + rest.push(
            Seq::<char>::empty(),
        ));
        assert(seq![lines[0]] + rest.push(Seq::<char>::empty()) =~= lines.push(
            Seq::<char>::empty(),
        ));
    }
    lemma_records_of_push(lines, Seq::<char>::empty());
    lemma_decode_empty();
    assert(records_of(lines) + Seq::<SystemMetrics>::empty() =~= records_of(lines));
}

/// The in-memory image of the log file: one entry per line.
pub struct Storage {
    lines: Vec<String>,
}

impl Storage {
    /// The log's lines.
    pub closed spec fn log(&self) -> Seq<Seq<char>> {
        self.lines.deep_view()
    }

    /// The snapshots the log holds, oldest first.
    pub open spec fn records(&self) -> Seq<SystemMetrics> {
        records_of(self.log())
    }

    /// An empty log.
    pub fn new() -> (r: Self)
        ensures
            r.log() =~= Seq::<Seq<char>>::empty(),
            r.records() =~= Seq::<SystemMetrics>::empty(),
    {
        let r = Self { lines: Vec::new() };
        proof {
            assert(r.log() =~= Seq::<Seq<char>>::empty());
        }
        r
    }

    /// Appends one snapshot: one encoded line at the end of the log, one
    /// more record.
    pub fn save_metrics(&mut self, metrics: &SystemMetrics)
        ensures
            final(self).log() =~= old(self).log().push(spec_encode_record(*metrics)),
            final(self).records() =~= old(self).records().push(*metrics),
    {
        let line = encode_record(metrics);
        self.lines.push(line);
        proof {
            assert(final(self).log() =~= old(self).log().push(spec_encode_record(*metrics)));
            lemma_records_of_push(old(self).log(), spec_encode_record(*metrics));
            lemma_decode_encode(*metrics);
            assert(final(self).records() =~= old(self).records().push(*metrics));
        }
    }

    /// Decodes the whole log, skipping malformed lines: exactly the log's
    /// records, oldest first.
    pub fn load_metrics(&self) -> (r: Vec<SystemMetrics>)
        ensures
            r@ =~= self.records(),
    {
        let mut r: Vec<SystemMetrics> = Vec::new();
        let n = self.lines.len();
        let mut i: usize = 0;
        proof {
            assert(self.log().take(0) =~= Seq::<Seq<char>>::empty());
        }
        while i < n
            invariant
                i <= n == self.lines.len(),
                self.log().len() == n,
                r@ =~= records_of(self.log().take(i as int)),
            decreases n - i,
        {
            proof {
                assert(self.log().take(i as int + 1) =~= self.log().take(i as int).push(
                    self.log()[i as int],
                ));
                lemma_records_of_push(self.log().take(i as int), self.log()[i as int]);
                assert(self.lines[i as int]@ == self.log()[i as int]);
            }
            match decode_record(self.lines[i].as_str()) {
                Some(m) => {
                    r.push(m);
                },
                None => {},
            }
            i = i + 1;
        }
        proof {
            assert(self.log().take(n as int) =~= self.log());
        }
        r
    }

    /// Enforces retention: when more than `max_records` records are
    /// stored, rewrites the log to the newest `max_records` records in
    /// their original order; otherwise leaves the log untouched.
    pub fn cleanup_old_records(&mut self, max_records: usize)
        ensures
            old(self).records().len() <= max_records ==> final(self).log() =~= old(self).log(),
            old(self).records().len() > max_records ==> {
                &&& final(self).log() =~= encoded_lines(
                    old(self).records().skip(old(self).records().len() - max_records),
                )
                &&& final(self).records() =~= old(self).records().skip(
                    old(self).records().len() - max_records,
                )
            },
    {
        let ms = self.load_metrics();
        if ms.len() > max_records {
            let ghost retained = old(self).records().skip(
                old(self).records().len() - max_records,
            );
            let start = ms.len() - max_records;
            let mut new_lines: Vec<String> = Vec::new();
            let mut i: usize = start;
            proof {
                assert(encoded_lines(retained).take(0) =~= Seq::<Seq<char>>::empty());
            }
            while i < ms.len()
                invariant
                    start <= i <= ms@.len(),
                    start == ms@.len() - max_records,
                    ms@ =~= old(self).records(),
                    retained =~= old(self).records().skip(ms@.len() - max_records),
                    new_lines.deep_view() =~= encoded_lines(retained).take(i - start),
                decreases ms@.len() - i,
            {
                let line = encode_record(&ms[i]);
                proof {
                    assert(retained[i - start] == ms@[i as int]);
                    assert(encoded_lines(retained).take(i - start + 1) =~= encoded_lines(
                        retained,
                    ).take(i - start).push(spec_encode_record(ms@[i as int])));
                }
                new_lines.push(line);
                i = i + 1;
            }
            self.lines = new_lines;
            proof {
                assert(encoded_lines(retained).take(retained.len() as int) =~= encoded_lines(
                    retained,
                ));
                assert(final(self).log() =~= encoded_lines(retained));
                lemma_store_round_trip(retained);
            }
        }
    }

    /// Renders the log as file text: each line followed by a newline.
    pub fn to_log(&self) -> (r: String)
        ensures
            r@ == log_text(self.log()),
    {
        let mut r = String::new();
        let n = self.lines.len();
        let mut i: usize = 0;
        proof {
            reveal_strlit("\n");
            assert(self.log().take(0) =~= Seq::<Seq<char>>::empty());
            assert(log_text(Seq::<Seq<char>>::empty()) =~= Seq::<char>::empty());
        }
        while i < n
            invariant
                i <= n == self.lines.len(),
                self.log().len() == n,
                "\n"@ =~= seq!['\n'],
                r@ =~= log_text(self.log().take(i as int)),
            decreases n - i,
        {
            r.append(self.lines[i].as_str());
            r.append("\n");
            proof {
                assert(self.log().take(i as int + 1) =~= self.log().take(i as int).push(
                    self.log()[i as int],
                ));
                lemma_log_text_push(self.log().take(i as int), self.log()[i as int]);
                assert(self.lines@[i as int]@ == self.log()[i as int]);
            }
            i = i + 1;
        }
        proof {
            assert(self.log().take(n as int) =~= self.log());
        }
        r
    }

    /// Rebuilds the log image from file text: one entry per
    /// newline-separated segment.
    pub fn from_log(content: &str) -> (r: Self)
        ensures
            r.log() == split_char(content@, '\n'),
    {
        let parts = split_ranges(content, '\n');
        let mut lines: Vec<String> = Vec::new();
        let ghost segs = split_char(content@, '\n');
        let n = parts.len();
        let mut i: usize = 0;
        while i < n
            invariant
                i <= n == parts@.len(),
                segs =~= split_char(content@, '\n'),
                segs.len() == n,
                forall|k: int|
                    0 <= k < n ==> {
                        &&& #[trigger] parts@[k].0 <= parts@[k].1 <= content@.len()
                        &&& content@.subrange(parts@[k].0 as int, parts@[k].1 as int) =~= segs[k]
                    },
                lines.deep_view() =~= segs.take(i as int),
            decreases n - i,
        {
            let p = parts[i];
            let seg = content.substring_char(p.0, p.1);
            lines.push(seg.to_owned());
            proof {
                assert(segs.take(i as int + 1) =~= segs.take(i as int).push(segs[i as int]));
            }
            i = i + 1;
        }
        let r = Self { lines };
        proof {
            assert(segs.take(n as int) =~= segs);
            assert(r.log() =~= segs);
        }
        r
    }
}

} // verus!
