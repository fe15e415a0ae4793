//! Write-ahead log of the packages exchanged with the engine, kept while
//! the engine is unreachable. Each entry is one JSON line
//! `[seq, direction, timestamp_ms, package]`; entries are replayed on
//! reconnect and dropped once acknowledged. The file itself is read and
//! written by the caller: this type decides what the lines say.
use vstd::prelude::*;
use vstd::string::*;
use crate::json::{wal_row_fields, wal_row_text, json_is_raw, json_trim, wal_row, parse_wal_row};
use crate::text::str_eq;

verus! {

/// Which way a logged package travels.
#[derive(Debug, Clone, Copy, PartialEq, Eq, Structural)]
pub enum WalDirection {
    Outbound,
    Inbound,
}

pub open spec fn direction_name(d: WalDirection) -> Seq<char> {
    match d {
        WalDirection::Outbound => "outbound"@,
        WalDirection::Inbound => "inbound"@,
    }
}

/// The direction a row names, if it names one.
pub open spec fn direction_of(name: Seq<char>) -> Option<WalDirection> {
    if name == "outbound"@ {
        Some(WalDirection::Outbound)
    } else if name == "inbound"@ {
        Some(WalDirection::Inbound)
    } else {
        None
    }
}

impl WalDirection {
    pub fn as_str(&self) -> (r: &'static str)
        ensures
            r@ == direction_name(*self),
    {
        match self {
            WalDirection::Outbound => "outbound",
            WalDirection::Inbound => "inbound",
        }
    }

    pub fn parse(name: &str) -> (r: Option<WalDirection>)
        ensures
            r == direction_of(name@),
    {
        if str_eq(name, "outbound") {
            Some(WalDirection::Outbound)
        } else if str_eq(name, "inbound") {
            Some(WalDirection::Inbound)
        } else {
            None
        }
    }
}

/// Why the log refused an operation.
#[derive(Debug, Clone, Copy, PartialEq, Eq, Structural)]
pub enum WalError {
    /// No sequence number is left.
    SequenceExhausted,
    /// The package is not JSON.
    InvalidData,
    /// The entry's number is not above every number logged, or was not
    /// handed out by this log.
    OutOfOrder,
}

/// One logged package; `data` is the package's JSON text.
#[derive(Debug)]
pub struct WalEntry {
    pub seq: u64,
    pub direction: WalDirection,
    pub timestamp_ms: u64,
    pub data: String,
    row: String,
}

pub struct WalEntryView {
    pub seq: u64,
    pub direction: WalDirection,
    pub timestamp_ms: u64,
    pub data: Seq<char>,
    /// The line that stores the entry.
    pub row: Seq<char>,
}

impl View for WalEntry {
    type V = WalEntryView;

    closed spec fn view(&self) -> WalEntryView {
        WalEntryView {
            seq: self.seq,
            direction: self.direction,
            timestamp_ms: self.timestamp_ms,
            data: self.data@,
            row: self.row@,
        }
    }
}

impl Clone for WalEntry {
    fn clone(&self) -> (r: WalEntry)
        ensures
            r@ == self@,
    {
        WalEntry {
            seq: self.seq,
            direction: self.direction,
            timestamp_ms: self.timestamp_ms,
            data: self.data.clone(),
            row: self.row.clone(),
        }
    }
}

impl WalEntry {
    /// The logged package's JSON text.
    pub fn data(&self) -> (r: &str)
        ensures
            r@ == self@.data,
    {
        self.data.as_str()
    }

    /// The line that stores this entry.
    pub fn row(&self) -> (r: &str)
        ensures
            r@ == self@.row,
    {
        self.row.as_str()
    }
}

/// The entry's line reads back as exactly its fields.
pub open spec fn row_matches(e: WalEntryView) -> bool {
    wal_row_fields(e.row) == Some((e.seq, direction_name(e.direction), e.timestamp_ms, e.data))
}

pub open spec fn all_rows_match(entries: Seq<WalEntryView>) -> bool {
    forall|i: int| 0 <= i < entries.len() ==> row_matches(#[trigger] entries[i])
}

/// The entry a line holds: one that parses as a row naming a direction.
pub open spec fn entry_of_line(line: Seq<char>) -> Option<WalEntryView> {
    match wal_row_fields(line) {
        Some((s, d, t, x)) => match direction_of(d) {
            Some(dir) => Some(WalEntryView { seq: s, direction: dir, timestamp_ms: t, data: x, row: line }),
            None => None,
        },
        None => None,
    }
}

/// The entries a file holds, in line order; other lines are skipped.
pub open spec fn loaded_entries(lines: Seq<Seq<char>>) -> Seq<WalEntryView>
    decreases lines.len(),
{
    if lines.len() == 0 {
        Seq::empty()
    } else {
        match entry_of_line(lines.last()) {
            Some(e) => loaded_entries(lines.drop_last()).push(e),
            None => loaded_entries(lines.drop_last()),
        }
    }
}

/// The highest sequence number among `entries`, 0 for none.
pub open spec fn max_seq(entries: Seq<WalEntryView>) -> u64
    decreases entries.len(),
{
    if entries.len() == 0 {
        0
    } else {
        let m = max_seq(entries.drop_last());
        if entries.last().seq > m {
            entries.last().seq
        } else {
            m
        }
    }
}

/// Whether an acknowledgement of `direction` up to `up_to` removes `e`.
pub open spec fn acknowledged(e: WalEntryView, direction: WalDirection, up_to: u64) -> bool {
    e.direction == direction && e.seq <= up_to
}

/// The entries that survive the acknowledgement, in order.
pub open spec fn after_ack(entries: Seq<WalEntryView>, direction: WalDirection, up_to: u64) -> Seq<WalEntryView>
    decreases entries.len(),
{
    if entries.len() == 0 {
        entries
    } else if acknowledged(entries.last(), direction, up_to) {
        after_ack(entries.drop_last(), direction, up_to)
    } else {
        after_ack(entries.drop_last(), direction, up_to).push(entries.last())
    }
}

/// The entries travelling `direction`, in order.
pub open spec fn in_direction(entries: Seq<WalEntryView>, direction: WalDirection) -> Seq<WalEntryView>
    decreases entries.len(),
{
    if entries.len() == 0 {
        entries
    } else if entries.last().direction == direction {
        in_direction(entries.drop_last(), direction).push(entries.last())
    } else {
        in_direction(entries.drop_last(), direction)
    }
}

pub open spec fn entry_views(v: Seq<WalEntry>) -> Seq<WalEntryView> {
    v.map_values(|e: WalEntry| e@)
}

/// An entry whose sequence number is taken but which is not logged yet.
#[derive(Debug)]
pub struct PendingAppend {
    entry: WalEntry,
}

impl View for PendingAppend {
    type V = WalEntryView;

    closed spec fn view(&self) -> WalEntryView {
        self.entry@
    }
}

impl PendingAppend {
    #[verifier::type_invariant]
    spec fn consistent(self) -> bool {
        row_matches(self.entry@)
    }

    pub fn seq(&self) -> (r: u64)
        ensures
            r == self@.seq,
    {
        self.entry.seq
    }

    /// The line to add to the file.
    pub fn row(&self) -> (r: &str)
        ensures
            r@ == self@.row,
    {
        self.entry.row.as_str()
    }
}

pub struct WalView {
    pub entries: Seq<WalEntryView>,
    pub next_seq: u64,
    /// The highest number logged so far, 0 before any.
    pub top: u64,
}

proof fn lemma_direction_round_trip(d: WalDirection)
    ensures
        direction_of(direction_name(d)) == Some(d),
{
    reveal_strlit("outbound");
    reveal_strlit("inbound");
    assert("outbound"@.len() == 8 && "inbound"@.len() == 7);
}

/// Reopening restores the log: the lines of a log's entries load back as
/// exactly those entries, in order.
pub proof fn law_reopen_restores_entries(entries: Seq<WalEntryView>)
    requires
        all_rows_match(entries),
    ensures
        loaded_entries(entries.map_values(|e: WalEntryView| e.row)) == entries,
    decreases entries.len(),
{
    let lines = entries.map_values(|e: WalEntryView| e.row);
    if entries.len() > 0 {
        let rest = entries.drop_last();
        assert(all_rows_match(rest)) by {
            assert forall|i: int| 0 <= i < rest.len() implies row_matches(#[trigger] rest[i]) by {
                assert(rest[i] == entries[i]);
            }
        }
        law_reopen_restores_entries(rest);
        assert(lines.drop_last() =~= rest.map_values(|e: WalEntryView| e.row));
        let e = entries.last();
        assert(row_matches(entries[entries.len() - 1]));
        lemma_direction_round_trip(e.direction);
        assert(entry_of_line(lines.last()) == Some(e));
        assert(loaded_entries(lines) =~= entries);
    } else {
        assert(lines.len() == 0);
    }
}

/// What is logged comes back: once an entry prepared from package `d` is
/// logged after `entries`, the log's lines load back as exactly those
/// entries, and the last entry travelling its way carries `d` without the
/// whitespace around it, behind the earlier ones of that way.
pub proof fn law_logged_package_comes_back(entries: Seq<WalEntryView>, p: WalEntryView, d: Seq<char>)
    requires
        all_rows_match(entries),
        row_matches(p),
        p.data == json_trim(d),
    ensures
        loaded_entries(entries.push(p).map_values(|e: WalEntryView| e.row)) == entries.push(p),
        in_direction(entries.push(p), p.direction) == in_direction(entries, p.direction).push(p),
        in_direction(entries.push(p), p.direction).last().data == json_trim(d),
{
    let all = entries.push(p);
    assert(all_rows_match(all)) by {
        assert forall|i: int| 0 <= i < all.len() implies row_matches(#[trigger] all[i]) by {
            if i < entries.len() {
                assert(all[i] == entries[i]);
            }
        }
    }
    law_reopen_restores_entries(all);
    assert(all.drop_last() =~= entries);
}

/// Every entry is numbered below `n`.
pub open spec fn numbered_below(entries: Seq<WalEntryView>, n: u64) -> bool {
    forall|i: int| 0 <= i < entries.len() ==> (#[trigger] entries[i]).seq < n
}

proof fn lemma_max_seq_bounds(entries: Seq<WalEntryView>)
    ensures
        forall|i: int| 0 <= i < entries.len() ==> (#[trigger] entries[i]).seq <= max_seq(entries),
    decreases entries.len(),
{
    if entries.len() > 0 {
        let rest = entries.drop_last();
        lemma_max_seq_bounds(rest);
        assert forall|i: int| 0 <= i < entries.len() implies (#[trigger] entries[i]).seq <= max_seq(entries) by {
            if i < rest.len() {
                assert(entries[i] == rest[i]);
            }
        }
    }
}

/// Sequence numbers only go up: when every logged entry is numbered below
/// the next number, the entry appended with that number is above all the
/// others, and the log stays numbered below its next number.
pub proof fn law_sequence_numbers_increase(w: WalView, p: WalEntryView)
    requires
        numbered_below(w.entries, w.next_seq),
        p.seq == w.next_seq,
        w.next_seq < u64::MAX,
    ensures
        forall|i: int| 0 <= i < w.entries.len() ==> (#[trigger] w.entries[i]).seq < p.seq,
        numbered_below(w.entries.push(p), (w.next_seq + 1) as u64),
{
    assert forall|i: int| 0 <= i < w.entries.push(p).len() implies (#[trigger] w.entries.push(p)[i]).seq < (
    w.next_seq + 1) as u64 by {
        if i < w.entries.len() {
            assert(w.entries.push(p)[i] == w.entries[i]);
        }
    }
}

/// An acknowledgement leaves the other direction untouched.
pub proof fn law_ack_keeps_other_direction(
    entries: Seq<WalEntryView>,
    direction: WalDirection,
    up_to: u64,
    other: WalDirection,
)
    requires
        other != direction,
    ensures
        in_direction(after_ack(entries, direction, up_to), other) == in_direction(entries, other),
    decreases entries.len(),
{
    if entries.len() > 0 {
        law_ack_keeps_other_direction(entries.drop_last(), direction, up_to, other);
        let a = after_ack(entries.drop_last(), direction, up_to);
        assert(a.push(entries.last()).drop_last() =~= a);
    }
}

/// After an acknowledgement of `direction` up to `up_to`, no entry of that
/// direction numbered up to `up_to` is left, and every other entry is.
pub proof fn law_ack_removes_exactly_acknowledged(entries: Seq<WalEntryView>, direction: WalDirection, up_to: u64)
    ensures
        forall|i: int| 0 <= i < after_ack(entries, direction, up_to).len() ==> !acknowledged(
            #[trigger] after_ack(entries, direction, up_to)[i],
            direction,
            up_to,
        ),
        forall|i: int| 0 <= i < entries.len() && !acknowledged(#[trigger] entries[i], direction, up_to) ==> after_ack(
            entries,
            direction,
            up_to,
        ).contains(entries[i]),
    decreases entries.len(),
{
    if entries.len() > 0 {
        let rest = entries.drop_last();
        law_ack_removes_exactly_acknowledged(rest, direction, up_to);
        let a = after_ack(rest, direction, up_to);
        assert forall|i: int| 0 <= i < entries.len() && !acknowledged(#[trigger] entries[i], direction, up_to) implies after_ack(
            entries,
            direction,
            up_to,
        ).contains(entries[i]) by {
            if i < entries.len() - 1 {
                assert(rest[i] == entries[i]);
                assert(a.contains(rest[i]));
                let k = choose|k: int| 0 <= k < a.len() && a[k] == rest[i];
                if !acknowledged(entries.last(), direction, up_to) {
                    assert(a.push(entries.last())[k] == entries[i]);
                }
            } else {
                assert(after_ack(entries, direction, up_to) == a.push(entries.last()));
                assert(a.push(entries.last())[a.len() as int] == entries[i]);
            }
        }
    }
}

/// The log's entries in memory, oldest first.
#[derive(Debug)]
pub struct Wal {
    entries: Vec<WalEntry>,
    next_seq: u64,
    top: u64,
}

impl View for Wal {
    type V = WalView;

    closed spec fn view(&self) -> WalView {
        WalView { entries: entry_views(self.entries@), next_seq: self.next_seq, top: self.top }
    }
}

impl Wal {
    #[verifier::type_invariant]
    spec fn rows_consistent(self) -> bool {
        &&& all_rows_match(entry_views(self.entries@))
        &&& numbered_below(entry_views(self.entries@), (self.top + 1) as u64)
        &&& self.top < self.next_seq
    }

    /// The log of a missing file.
    pub fn new() -> (r: Wal)
        ensures
            r@.entries.len() == 0,
            r@.next_seq == 1,
            r@.top == 0,
    {
        let w = Wal { entries: Vec::new(), next_seq: 1, top: 0 };
        assert(w@.entries =~= Seq::<WalEntryView>::empty());
        w
    }

    /// The log a file holds: every line that parses as a row naming a
    /// direction, in order; numbering continues after the highest one.
    pub fn from_lines(lines: &Vec<String>) -> (r: Result<Wal, WalError>)
        ensures
            ({
                let es = loaded_entries(lines@.map_values(|l: String| l@));
                match r {
                    Ok(w) => w@.entries == es && w@.next_seq == max_seq(es) + 1 && w@.top == max_seq(es)
                        && numbered_below(w@.entries, w@.next_seq),
                    Err(e) => e == WalError::SequenceExhausted && max_seq(es) == u64::MAX,
                }
            }),
    {
        let ghost ls = lines@.map_values(|l: String| l@);
        let mut entries: Vec<WalEntry> = Vec::new();
        let mut max: u64 = 0;
        let mut i: usize = 0;
        assert(ls.take(0) =~= Seq::<Seq<char>>::empty());
        while i < lines.len()
            invariant
                i <= lines@.len(),
                ls == lines@.map_values(|l: String| l@),
                entry_views(entries@) == loaded_entries(ls.take(i as int)),
                max == max_seq(loaded_entries(ls.take(i as int))),
                all_rows_match(entry_views(entries@)),
            decreases lines@.len() - i,
        {
            proof {
                assert(ls.take(i + 1).drop_last() =~= ls.take(i as int));
                assert(ls.take(i + 1).last() == lines@[i as int]@);
            }
            let line = &lines[i];
            match parse_wal_row(line.as_str()) {
                Some((s, d, t, x)) => {
                    match WalDirection::parse(d.as_str()) {
                        Some(dir) => {
                            let e = WalEntry { seq: s, direction: dir, timestamp_ms: t, data: x, row: line.clone() };
                            let ghost prev = entry_views(entries@);
                            let ghost ev = e@;
                            entries.push(e);
                            assert(entry_views(entries@) =~= prev.push(ev));
                            assert(prev.push(ev).drop_last() =~= prev);
                            if s > max {
                                max = s;
                            }
                        },
                        None => {},
                    }
                },
                None => {},
            }
            i += 1;
        }
        assert(ls.take(i as int) =~= ls);
        if max == u64::MAX {
            return Err(WalError::SequenceExhausted);
        }
        proof { lemma_max_seq_bounds(entry_views(entries@)); }
        Ok(Wal { entries, next_seq: max + 1, top: max })
    }

    /// Takes the next sequence number for a package (JSON text) and
    /// prepares its line; the entry is logged by `commit_append` once the
    /// line is stored.
    pub fn begin_append(&mut self, direction: WalDirection, timestamp_ms: u64, data: &str) -> (r: Result<PendingAppend, WalError>)
        ensures
            old(self)@.next_seq == u64::MAX ==> r == Err::<PendingAppend, WalError>(WalError::SequenceExhausted)
                && final(self)@ == old(self)@,
            old(self)@.next_seq < u64::MAX && !json_is_raw(data@) ==> r == Err::<PendingAppend, WalError>(
                WalError::InvalidData,
            ) && final(self)@ == old(self)@,
            r is Ok <==> old(self)@.next_seq < u64::MAX && json_is_raw(data@),
            r matches Ok(p) ==> {
                &&& p@.seq == old(self)@.next_seq
                &&& p@.direction == direction
                &&& p@.timestamp_ms == timestamp_ms
                &&& p@.data == json_trim(data@)
                &&& p@.row == wal_row_text(p@.seq, direction_name(direction), timestamp_ms, data@).unwrap()
                &&& row_matches(p@)
                &&& final(self)@ == (WalView { next_seq: (old(self)@.next_seq + 1) as u64, ..old(self)@ })
            },
    {
        proof { use_type_invariant(&*self); }
        if self.next_seq == u64::MAX {
            return Err(WalError::SequenceExhausted);
        }
        let seq = self.next_seq;
        let row = match wal_row(seq, direction.as_str(), timestamp_ms, data) {
            Some(row) => row,
            None => return Err(WalError::InvalidData),
        };
        let (s, d, t, stored) = parse_wal_row(row.as_str()).unwrap();
        self.next_seq = seq + 1;
        Ok(PendingAppend { entry: WalEntry { seq, direction, timestamp_ms, data: stored, row } })
    }

    /// Logs an entry whose line was stored. Only a number this log handed
    /// out and that is above every number logged so far is taken, so numbers
    /// only go up; another one is refused and the log stays as it was.
    pub fn commit_append(&mut self, pending: PendingAppend) -> (r: Result<u64, WalError>)
        ensures
            r is Ok <==> old(self)@.top < pending@.seq < old(self)@.next_seq,
            match r {
                Ok(s) => s == pending@.seq && final(self)@ == (WalView {
                    entries: old(self)@.entries.push(pending@),
                    top: pending@.seq,
                    ..old(self)@
                }) && forall|i: int| 0 <= i < old(self)@.entries.len() ==> (#[trigger] old(self)@.entries[i]).seq < s,
                Err(e) => e == WalError::OutOfOrder && final(self)@ == old(self)@,
            },
    {
        proof {
            use_type_invariant(&pending);
            use_type_invariant(&*self);
        }
        let seq = pending.entry.seq;
        if !(self.top < seq && seq < self.next_seq) {
            return Err(WalError::OutOfOrder);
        }
        let e = pending.entry;
        let mut entries: Vec<WalEntry> = Vec::new();
        std::mem::swap(&mut entries, &mut self.entries);
        let ghost prev = entry_views(entries@);
        let ghost ev = e@;
        entries.push(e);
        assert(entry_views(entries@) =~= prev.push(ev));
        self.top = seq;
        assert(numbered_below(entry_views(entries@), (seq + 1) as u64)) by {
            assert forall|i: int| 0 <= i < entry_views(entries@).len() implies (#[trigger] entry_views(entries@)[i]).seq
                < (seq + 1) as u64 by {
                if i < prev.len() {
                    assert(entry_views(entries@)[i] == prev[i]);
                }
            }
        }
        self.entries = entries;
        Ok(seq)
    }

    /// Drops every entry of `direction` numbered up to `up_to_seq`.
    pub fn ack(&mut self, direction: WalDirection, up_to_seq: u64)
        ensures
            final(self)@ == (WalView { entries: after_ack(old(self)@.entries, direction, up_to_seq), ..old(self)@ }),
    {
        proof { use_type_invariant(&*self); }
        let mut old_entries: Vec<WalEntry> = Vec::new();
        std::mem::swap(&mut old_entries, &mut self.entries);
        let ghost es = entry_views(old_entries@);
        let ghost bound = (self.top + 1) as u64;
        let mut kept: Vec<WalEntry> = Vec::new();
        let mut i: usize = 0;
        assert(es.take(0) =~= Seq::<WalEntryView>::empty());
        while i < old_entries.len()
            invariant
                i <= old_entries@.len(),
                es == entry_views(old_entries@),
                all_rows_match(es),
                numbered_below(es, bound),
                entry_views(kept@) == after_ack(es.take(i as int), direction, up_to_seq),
                all_rows_match(entry_views(kept@)),
                numbered_below(entry_views(kept@), bound),
            decreases old_entries@.len() - i,
        {
            proof {
                assert(es.take(i + 1).drop_last() =~= es.take(i as int));
                assert(es.take(i + 1).last() == old_entries@[i as int]@);
            }
            if !(old_entries[i].direction == direction && old_entries[i].seq <= up_to_seq) {
                let e = old_entries[i].clone();
                let ghost prev = entry_views(kept@);
                kept.push(e);
                assert(entry_views(kept@) =~= prev.push(old_entries@[i as int]@));
            }
            i += 1;
        }
        assert(es.take(i as int) =~= es);
        self.entries = kept;
    }

    /// Copies of the entries of `direction` still waiting for an acknowledgement.
    pub fn unacked_entries(&self, direction: WalDirection) -> (r: Vec<WalEntry>)
        ensures
            entry_views(r@) == in_direction(self@.entries, direction),
    {
        let ghost es = self@.entries;
        let mut out: Vec<WalEntry> = Vec::new();
        let mut i: usize = 0;
        assert(es.take(0) =~= Seq::<WalEntryView>::empty());
        while i < self.entries.len()
            invariant
                i <= self.entries@.len(),
                es == entry_views(self.entries@),
                entry_views(out@) == in_direction(es.take(i as int), direction),
            decreases self.entries@.len() - i,
        {
            proof {
                assert(es.take(i + 1).drop_last() =~= es.take(i as int));
                assert(es.take(i + 1).last() == self.entries@[i as int]@);
            }
            if self.entries[i].direction == direction {
                let e = self.entries[i].clone();
                let ghost prev = entry_views(out@);
                out.push(e);
                assert(entry_views(out@) =~= prev.push(self.entries@[i as int]@));
            }
            i += 1;
        }
        assert(es.take(i as int) =~= es);
        out
    }

    /// The file's lines: one per entry, in order.
    pub fn rows(&self) -> (r: Vec<String>)
        ensures
            r@.map_values(|l: String| l@) == self@.entries.map_values(|e: WalEntryView| e.row),
            all_rows_match(self@.entries),
    {
        proof { use_type_invariant(self); }
        let mut out: Vec<String> = Vec::new();
        let mut i: usize = 0;
        while i < self.entries.len()
            invariant
                i <= self.entries@.len(),
                out@.len() == i,
                forall|j: int| 0 <= j < i ==> (#[trigger] out@[j])@ == self.entries@[j]@.row,
            decreases self.entries@.len() - i,
        {
            out.push(self.entries[i].row.clone());
            i += 1;
        }
        assert(out@.map_values(|l: String| l@) =~= self@.entries.map_values(|e: WalEntryView| e.row));
        out
    }
}

} // verus!
