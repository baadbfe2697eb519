//! Process-wide I/O activity as the engine's diagnostics consume it: a
//! snapshot of plain counters, the last two snapshots for rate
//! estimates, and the text lines a terminal renderer shows.

use vstd::prelude::*;

use crate::textfmt::{clone_bytes, push_bytes, push_dec, spec_dec_digits};

verus! {

/// One kind of I/O operation counted by the host process.
#[derive(Clone, Copy, PartialEq, Eq, Structural, Debug)]
pub enum IoCounterKey {
    Stat,
    Copy,
    Symlink,
    Hardlink,
    MkDir,
    ReadDir,
    ReadDirEden,
    RmDir,
    RmDirAll,
    StatEden,
    Chmod,
    ReadLink,
    Remove,
    Rename,
    Read,
    Write,
    Canonicalize,
    EdenSettle,
}

/// All counter kinds, in display order.
pub open spec fn spec_all_counter_keys() -> Seq<IoCounterKey> {
    seq![IoCounterKey::Stat, IoCounterKey::Copy, IoCounterKey::Symlink, IoCounterKey::Hardlink, IoCounterKey::MkDir, IoCounterKey::ReadDir, IoCounterKey::ReadDirEden, IoCounterKey::RmDir, IoCounterKey::RmDirAll, IoCounterKey::StatEden, IoCounterKey::Chmod, IoCounterKey::ReadLink, IoCounterKey::Remove, IoCounterKey::Rename, IoCounterKey::Read, IoCounterKey::Write, IoCounterKey::Canonicalize, IoCounterKey::EdenSettle]
}

pub fn all_counter_keys() -> (out: Vec<IoCounterKey>)
    ensures
        out@ == spec_all_counter_keys(),
{
    let mut out: Vec<IoCounterKey> = Vec::new();
    out.push(IoCounterKey::Stat);
    out.push(IoCounterKey::Copy);
    out.push(IoCounterKey::Symlink);
    out.push(IoCounterKey::Hardlink);
    out.push(IoCounterKey::MkDir);
    out.push(IoCounterKey::ReadDir);
    out.push(IoCounterKey::ReadDirEden);
    out.push(IoCounterKey::RmDir);
    out.push(IoCounterKey::RmDirAll);
    out.push(IoCounterKey::StatEden);
    out.push(IoCounterKey::Chmod);
    out.push(IoCounterKey::ReadLink);
    out.push(IoCounterKey::Remove);
    out.push(IoCounterKey::Rename);
    out.push(IoCounterKey::Read);
    out.push(IoCounterKey::Write);
    out.push(IoCounterKey::Canonicalize);
    out.push(IoCounterKey::EdenSettle);
    proof {
        assert(out@ =~= spec_all_counter_keys());
    }
    out
}

/// The display name of a counter kind.
pub open spec fn spec_counter_name(k: IoCounterKey) -> Seq<u8> {
    match k {
        IoCounterKey::Stat => seq![83u8, 116u8, 97u8, 116u8],
        IoCounterKey::Copy => seq![67u8, 111u8, 112u8, 121u8],
        IoCounterKey::Symlink => seq![83u8, 121u8, 109u8, 108u8, 105u8, 110u8, 107u8],
        IoCounterKey::Hardlink => seq![72u8, 97u8, 114u8, 100u8, 108u8, 105u8, 110u8, 107u8],
        IoCounterKey::MkDir => seq![77u8, 107u8, 68u8, 105u8, 114u8],
        IoCounterKey::ReadDir => seq![82u8, 101u8, 97u8, 100u8, 68u8, 105u8, 114u8],
        IoCounterKey::ReadDirEden => seq![82u8, 101u8, 97u8, 100u8, 68u8, 105u8, 114u8, 69u8, 100u8, 101u8, 110u8],
        IoCounterKey::RmDir => seq![82u8, 109u8, 68u8, 105u8, 114u8],
        IoCounterKey::RmDirAll => seq![82u8, 109u8, 68u8, 105u8, 114u8, 65u8, 108u8, 108u8],
        IoCounterKey::StatEden => seq![83u8, 116u8, 97u8, 116u8, 69u8, 100u8, 101u8, 110u8],
        IoCounterKey::Chmod => seq![67u8, 104u8, 109u8, 111u8, 100u8],
        IoCounterKey::ReadLink => seq![82u8, 101u8, 97u8, 100u8, 76u8, 105u8, 110u8, 107u8],
        IoCounterKey::Remove => seq![82u8, 101u8, 109u8, 111u8, 118u8, 101u8],
        IoCounterKey::Rename => seq![82u8, 101u8, 110u8, 97u8, 109u8, 101u8],
        IoCounterKey::Read => seq![82u8, 101u8, 97u8, 100u8],
        IoCounterKey::Write => seq![87u8, 114u8, 105u8, 116u8, 101u8],
        IoCounterKey::Canonicalize => seq![67u8, 97u8, 110u8, 111u8, 110u8, 105u8, 99u8, 97u8, 108u8, 105u8, 122u8, 101u8],
        IoCounterKey::EdenSettle => seq![69u8, 100u8, 101u8, 110u8, 83u8, 101u8, 116u8, 116u8, 108u8, 101u8],
    }
}

pub fn counter_name(k: IoCounterKey) -> (r: Vec<u8>)
    ensures
        r@ == spec_counter_name(k),
{
    let out: Vec<u8> = match k {
            IoCounterKey::Stat => vec![83u8, 116u8, 97u8, 116u8],
            IoCounterKey::Copy => vec![67u8, 111u8, 112u8, 121u8],
            IoCounterKey::Symlink => vec![83u8, 121u8, 109u8, 108u8, 105u8, 110u8, 107u8],
            IoCounterKey::Hardlink => vec![72u8, 97u8, 114u8, 100u8, 108u8, 105u8, 110u8, 107u8],
            IoCounterKey::MkDir => vec![77u8, 107u8, 68u8, 105u8, 114u8],
            IoCounterKey::ReadDir => vec![82u8, 101u8, 97u8, 100u8, 68u8, 105u8, 114u8],
            IoCounterKey::ReadDirEden => vec![82u8, 101u8, 97u8, 100u8, 68u8, 105u8, 114u8, 69u8, 100u8, 101u8, 110u8],
            IoCounterKey::RmDir => vec![82u8, 109u8, 68u8, 105u8, 114u8],
            IoCounterKey::RmDirAll => vec![82u8, 109u8, 68u8, 105u8, 114u8, 65u8, 108u8, 108u8],
            IoCounterKey::StatEden => vec![83u8, 116u8, 97u8, 116u8, 69u8, 100u8, 101u8, 110u8],
            IoCounterKey::Chmod => vec![67u8, 104u8, 109u8, 111u8, 100u8],
            IoCounterKey::ReadLink => vec![82u8, 101u8, 97u8, 100u8, 76u8, 105u8, 110u8, 107u8],
            IoCounterKey::Remove => vec![82u8, 101u8, 109u8, 111u8, 118u8, 101u8],
            IoCounterKey::Rename => vec![82u8, 101u8, 110u8, 97u8, 109u8, 101u8],
            IoCounterKey::Read => vec![82u8, 101u8, 97u8, 100u8],
            IoCounterKey::Write => vec![87u8, 114u8, 105u8, 116u8, 101u8],
            IoCounterKey::Canonicalize => vec![67u8, 97u8, 110u8, 111u8, 110u8, 105u8, 99u8, 97u8, 108u8, 105u8, 122u8, 101u8],
            IoCounterKey::EdenSettle => vec![69u8, 100u8, 101u8, 110u8, 83u8, 101u8, 116u8, 116u8, 108u8, 101u8],
    };
    proof {
        assert(out@ =~= spec_counter_name(k));
    }
    out
}

/// A snapshot of the host process's counters, as plain values.
#[derive(Clone, Copy, PartialEq, Eq, Structural, Debug)]
pub struct Snapshot {
    pub io_in_flight_stat: u32,
    pub io_in_flight_copy: u32,
    pub io_in_flight_symlink: u32,
    pub io_in_flight_hardlink: u32,
    pub io_in_flight_mk_dir: u32,
    pub io_in_flight_read_dir: u32,
    pub io_in_flight_read_dir_eden: u32,
    pub io_in_flight_rm_dir: u32,
    pub io_in_flight_rm_dir_all: u32,
    pub io_in_flight_stat_eden: u32,
    pub io_in_flight_chmod: u32,
    pub io_in_flight_read_link: u32,
    pub io_in_flight_remove: u32,
    pub io_in_flight_rename: u32,
    pub io_in_flight_read: u32,
    pub io_in_flight_write: u32,
    pub io_in_flight_canonicalize: u32,
    pub io_in_flight_eden_settle: u32,
    pub rss: Option<u64>,
    pub deferred_materializer_queue_size: u64,
    pub blocking_executor_io_queue_size: u64,
    pub user_cpu_us: u64,
    pub system_cpu_us: u64,
}

/// The in-flight count a snapshot holds for one counter kind.
pub open spec fn spec_counter_value(k: IoCounterKey, s: Snapshot) -> u32 {
    match k {
        IoCounterKey::Stat => s.io_in_flight_stat,
        IoCounterKey::Copy => s.io_in_flight_copy,
        IoCounterKey::Symlink => s.io_in_flight_symlink,
        IoCounterKey::Hardlink => s.io_in_flight_hardlink,
        IoCounterKey::MkDir => s.io_in_flight_mk_dir,
        IoCounterKey::ReadDir => s.io_in_flight_read_dir,
        IoCounterKey::ReadDirEden => s.io_in_flight_read_dir_eden,
        IoCounterKey::RmDir => s.io_in_flight_rm_dir,
        IoCounterKey::RmDirAll => s.io_in_flight_rm_dir_all,
        IoCounterKey::StatEden => s.io_in_flight_stat_eden,
        IoCounterKey::Chmod => s.io_in_flight_chmod,
        IoCounterKey::ReadLink => s.io_in_flight_read_link,
        IoCounterKey::Remove => s.io_in_flight_remove,
        IoCounterKey::Rename => s.io_in_flight_rename,
        IoCounterKey::Read => s.io_in_flight_read,
        IoCounterKey::Write => s.io_in_flight_write,
        IoCounterKey::Canonicalize => s.io_in_flight_canonicalize,
        IoCounterKey::EdenSettle => s.io_in_flight_eden_settle,
    }
}

pub fn counter_value(k: IoCounterKey, s: &Snapshot) -> (r: u32)
    ensures
        r == spec_counter_value(k, *s),
{
    match k {
            IoCounterKey::Stat => s.io_in_flight_stat,
            IoCounterKey::Copy => s.io_in_flight_copy,
            IoCounterKey::Symlink => s.io_in_flight_symlink,
            IoCounterKey::Hardlink => s.io_in_flight_hardlink,
            IoCounterKey::MkDir => s.io_in_flight_mk_dir,
            IoCounterKey::ReadDir => s.io_in_flight_read_dir,
            IoCounterKey::ReadDirEden => s.io_in_flight_read_dir_eden,
            IoCounterKey::RmDir => s.io_in_flight_rm_dir,
            IoCounterKey::RmDirAll => s.io_in_flight_rm_dir_all,
            IoCounterKey::StatEden => s.io_in_flight_stat_eden,
            IoCounterKey::Chmod => s.io_in_flight_chmod,
            IoCounterKey::ReadLink => s.io_in_flight_read_link,
            IoCounterKey::Remove => s.io_in_flight_remove,
            IoCounterKey::Rename => s.io_in_flight_rename,
            IoCounterKey::Read => s.io_in_flight_read,
            IoCounterKey::Write => s.io_in_flight_write,
            IoCounterKey::Canonicalize => s.io_in_flight_canonicalize,
            IoCounterKey::EdenSettle => s.io_in_flight_eden_settle,
    }
}

/// The counter kinds whose in-flight count is non-zero among the first
/// `t` kinds, each with its count, in display order.
pub open spec fn spec_nonzero_counters(s: Snapshot, t: int) -> Seq<(IoCounterKey, u32)>
    decreases t,
{
    if t <= 0 {
        Seq::empty()
    } else {
        let k = spec_all_counter_keys()[t - 1];
        spec_nonzero_counters(s, t - 1) + (if spec_counter_value(k, s) > 0 {
            seq![(k, spec_counter_value(k, s))]
        } else {
            Seq::empty()
        })
    }
}

/// Every counter kind whose in-flight count in the snapshot is
/// non-zero, with its count, in display order.
pub fn io_in_flight_non_zero_counters(s: &Snapshot) -> (out: Vec<(IoCounterKey, u32)>)
    ensures
        out@ == spec_nonzero_counters(*s, spec_all_counter_keys().len() as int),
{
    let keys = all_counter_keys();
    let mut out: Vec<(IoCounterKey, u32)> = Vec::new();
    let mut i: usize = 0;
    while i < keys.len()
        invariant
            keys@ == spec_all_counter_keys(),
            i <= keys@.len(),
            out@ == spec_nonzero_counters(*s, i as int),
        decreases keys@.len() - i,
    {
        let v = counter_value(keys[i], s);
        if v > 0 {
            out.push((keys[i], v));
            proof {
                assert(out@ =~= spec_nonzero_counters(*s, i + 1 as int));
            }
        }
        i = i + 1;
    }
    out
}

/// The last two snapshots, with their timestamps in milliseconds, kept
/// for rate estimates.
pub struct TwoSnapshots {
    pub first: Option<(u64, Snapshot)>,
    pub last: Option<(u64, Snapshot)>,
}

/// The CPU percentage between the two snapshots: total CPU time spent,
/// against wall time elapsed, saturated at the largest representable
/// value; nothing when fewer than two snapshots exist or time did not
/// advance.
pub open spec fn spec_cpu_percents(t: TwoSnapshots) -> Option<u64> {
    match (t.first, t.last) {
        (Some((t0, s0)), Some((t1, s1))) => {
            if t1 > t0 && s1.user_cpu_us >= s0.user_cpu_us && s1.system_cpu_us
                >= s0.system_cpu_us {
                let du = s1.user_cpu_us - s0.user_cpu_us;
                let ds = s1.system_cpu_us - s0.system_cpu_us;
                let q = (du + ds) * 100 / ((t1 - t0) * 1000);
                if q > u64::MAX {
                    Some(u64::MAX)
                } else {
                    Some(q as u64)
                }
            } else {
                None
            }
        },
        _ => None,
    }
}

impl TwoSnapshots {
    /// Record the next snapshot; the previous one is kept for rates.
    pub fn update(&mut self, timestamp: u64, snapshot: &Snapshot)
        ensures
            final(self).first == old(self).last,
            final(self).last == Some::<(u64, Snapshot)>((timestamp, *snapshot)),
    {
        self.first = self.last;
        self.last = Some((timestamp, *snapshot));
    }

    /// The CPU percentage between the two snapshots.
    pub fn cpu_percents(&self) -> (r: Option<u64>)
        ensures
            r == spec_cpu_percents(*self),
    {
        match (&self.first, &self.last) {
            (Some(f), Some(l)) => {
                let (t0, s0) = *f;
                let (t1, s1) = *l;
                if t1 > t0 && s1.user_cpu_us >= s0.user_cpu_us
                    && s1.system_cpu_us >= s0.system_cpu_us {
                    let du = (s1.user_cpu_us - s0.user_cpu_us) as u128;
                    let ds = (s1.system_cpu_us - s0.system_cpu_us) as u128;
                    let q: u128 = (du + ds) * 100 / (((t1 - t0) as u128) * 1000);
                    if q > u64::MAX as u128 {
                        Some(u64::MAX)
                    } else {
                        Some(q as u64)
                    }
                } else {
                    None
                }
            },
            _ => None,
        }
    }
}

/// The content of a list of byte rows.
pub open spec fn rows_view(rows: Seq<Vec<u8>>) -> Seq<Seq<u8>> {
    Seq::new(rows.len(), |i: int| rows[i]@)
}

/// Extending a row list by one appends that row's content to the view.
proof fn lemma_rows_view_push(before: Seq<Vec<u8>>, after: Seq<Vec<u8>>)
    requires
        after.len() == before.len() + 1,
        forall|u: int| 0 <= u < before.len() ==> after[u] == before[u],
    ensures
        rows_view(after) == rows_view(before).push(after[after.len() - 1]@),
{
    assert forall|u: int| 0 <= u < after.len() implies rows_view(after)[u] == rows_view(
        before,
    ).push(after[after.len() - 1]@)[u] by {
        if u < before.len() {
            assert(after[u] == before[u]);
        }
    }
    assert(rows_view(after) =~= rows_view(before).push(after[after.len() - 1]@));
}

/// Greedy placement of the remaining words onto lines, with
/// `cur` the line under construction. A word joins the current line
/// when the line, one separating space and the word fit the width;
/// otherwise the line is emitted and the word opens the next one.
/// Widths count bytes, so this is exact for ASCII text.
pub open spec fn spec_wtl(words: Seq<Seq<u8>>, width: int, cur: Seq<u8>) -> Seq<Seq<u8>>
    decreases words.len(),
{
    if words.len() == 0 {
        if cur.len() == 0 {
            Seq::empty()
        } else {
            seq![cur]
        }
    } else {
        let w = words[0];
        let rest = words.subrange(1, words.len() as int);
        if cur.len() == 0 {
            spec_wtl(rest, width, w)
        } else if cur.len() + 1 + w.len() > width {
            seq![cur] + spec_wtl(rest, width, w)
        } else {
            spec_wtl(rest, width, cur + seq![32u8] + w)
        }
    }
}

/// Space-separated words placed greedily on lines of at most `width`
/// bytes (a single over-long word still gets a line of its own).
pub open spec fn spec_words_to_lines(words: Seq<Seq<u8>>, width: int) -> Seq<Seq<u8>> {
    spec_wtl(words, width, Seq::empty())
}

/// Place space-separated words on lines.
pub fn words_to_lines(words: Vec<Vec<u8>>, width: usize) -> (r: Vec<Vec<u8>>)
    ensures
        rows_view(r@) == spec_words_to_lines(rows_view(words@), width as int),
{
    let ghost ws = rows_view(words@);
    let mut lines: Vec<Vec<u8>> = Vec::new();
    let mut current_line: Vec<u8> = Vec::new();
    let mut i: usize = 0;
    proof {
        assert(ws.subrange(0, ws.len() as int) =~= ws);
        assert(rows_view(lines@) =~= Seq::<Seq<u8>>::empty());
    }
    while i < words.len()
        invariant
            i <= words@.len(),
            ws == rows_view(words@),
            spec_words_to_lines(ws, width as int) == rows_view(lines@) + spec_wtl(
                ws.subrange(i as int, ws.len() as int),
                width as int,
                current_line@,
            ),
        decreases words@.len() - i,
    {
        let ghost rem = ws.subrange(i as int, ws.len() as int);
        let ghost cur0 = current_line@;
        let ghost lines0 = lines@;
        proof {
            assert(rem[0] == ws[i as int]);
            assert(ws[i as int] == words@[i as int]@);
            assert(rem.subrange(1, rem.len() as int) =~= ws.subrange(
                i + 1 as int,
                ws.len() as int,
            ));
        }
        let word = clone_bytes(&words[i]);
        if current_line.len() == 0 {
            current_line = word;
        } else {
            let fits: bool = if current_line.len() >= width {
                false
            } else {
                width - current_line.len() - 1 >= word.len()
            };
            if !fits {
                lines.push(current_line);
                current_line = word;
                proof {
                    assert(rows_view(lines@) =~= rows_view(lines0) + seq![cur0]);
                }
            } else {
                current_line.push(32);
                push_bytes(&mut current_line, &word);
                proof {
                    assert(current_line@ =~= cur0 + seq![32u8] + words@[i as int]@);
                }
            }
        }
        i = i + 1;
    }
    proof {
        assert(ws.subrange(ws.len() as int, ws.len() as int) =~= Seq::<Seq<u8>>::empty());
    }
    if current_line.len() > 0 {
        let ghost lines0 = lines@;
        let ghost cur0 = current_line@;
        lines.push(current_line);
        proof {
            assert(rows_view(lines@) =~= rows_view(lines0) + seq![cur0]);
        }
    }
    lines
}

/// Whether lines are rendered for an ongoing draw or as the final one.
#[derive(Clone, Copy, PartialEq, Eq, Structural, Debug)]
pub enum DrawMode {
    Normal,
    Final,
}

/// The summary fields of the first status line, in order: resident set
/// size, CPU percentage, and the two queue sizes when non-zero.
pub open spec fn spec_status_parts(t: TwoSnapshots, s: Snapshot) -> Seq<Seq<u8>> {
    (match s.rss {
        Some(rss) => seq![seq![82u8, 83u8, 83u8, 32u8, 61u8, 32u8] + spec_dec_digits(rss as nat)],
        None => Seq::<Seq<u8>>::empty(),
    }) + (match spec_cpu_percents(t) {
        Some(cpu) => seq![seq![67u8, 80u8, 85u8, 32u8, 61u8, 32u8] + spec_dec_digits(cpu as nat) + seq![37u8]],
        None => Seq::<Seq<u8>>::empty(),
    }) + (if s.deferred_materializer_queue_size > 0 {
        seq![seq![68u8, 77u8, 32u8, 81u8, 117u8, 101u8, 117u8, 101u8, 32u8, 61u8, 32u8] + spec_dec_digits(s.deferred_materializer_queue_size as nat)]
    } else {
        Seq::<Seq<u8>>::empty()
    }) + (if s.blocking_executor_io_queue_size > 0 {
        seq![seq![73u8, 79u8, 32u8, 81u8, 117u8, 101u8, 117u8, 101u8, 32u8, 61u8, 32u8] + spec_dec_digits(s.blocking_executor_io_queue_size as nat)]
    } else {
        Seq::<Seq<u8>>::empty()
    })
}

/// Parts joined by a two-space separator.
pub open spec fn spec_join_parts(parts: Seq<Seq<u8>>) -> Seq<u8>
    decreases parts.len(),
{
    if parts.len() == 0 {
        Seq::empty()
    } else if parts.len() == 1 {
        parts[0]
    } else {
        parts[0] + seq![32u8, 32u8] + spec_join_parts(parts.subrange(1, parts.len() as int))
    }
}

/// The words of the counter block: one `Name = value` word per counter
/// kind with a non-zero in-flight count.
pub open spec fn spec_counter_words(s: Snapshot) -> Seq<Seq<u8>> {
    let nz = spec_nonzero_counters(s, spec_all_counter_keys().len() as int);
    Seq::new(
        nz.len(),
        |i: int| spec_counter_name(nz[i].0) + seq![32u8, 61u8, 32u8] + spec_dec_digits(
            nz[i].1 as nat,
        ),
    )
}

/// The rendered lines for one snapshot: the joined status line when any
/// of its parts is present, then the counter words wrapped to `width`.
pub open spec fn spec_render_lines(t: TwoSnapshots, s: Snapshot, width: int) -> Seq<Seq<u8>> {
    (if spec_status_parts(t, s).len() > 0 {
        seq![spec_join_parts(spec_status_parts(t, s))]
    } else {
        Seq::<Seq<u8>>::empty()
    }) + spec_words_to_lines(spec_counter_words(s), width)
}

/// Periodic I/O diagnostics rendered from the latest snapshots.
pub struct IoState {
    pub two_snapshots: TwoSnapshots,
}

impl Default for IoState {
    /// A state with no snapshots yet.
    fn default() -> (r: IoState)
        ensures
            r.two_snapshots.first is None,
            r.two_snapshots.last is None,
    {
        IoState { two_snapshots: TwoSnapshots { first: None, last: None } }
    }
}

proof fn lemma_join_parts_snoc(parts: Seq<Seq<u8>>, p: Seq<u8>)
    ensures
        spec_join_parts(parts.push(p)) == if parts.len() == 0 {
            p
        } else {
            spec_join_parts(parts) + seq![32u8, 32u8] + p
        },
    decreases parts.len(),
{
    if parts.len() == 0 {
        assert(parts.push(p)[0] == p);
    } else {
        let s2 = parts.subrange(1, parts.len() as int);
        assert(parts.push(p)[0] == parts[0]);
        assert(parts.push(p).subrange(1, parts.push(p).len() as int) =~= s2.push(p));
        lemma_join_parts_snoc(s2, p);
        if parts.len() == 1 {
            assert(s2 =~= Seq::<Seq<u8>>::empty());
            assert(spec_join_parts(parts.push(p)) =~= spec_join_parts(parts) + seq![32u8, 32u8]
                + p);
        } else {
            assert(spec_join_parts(parts.push(p)) =~= spec_join_parts(parts) + seq![32u8, 32u8]
                + p);
        }
    }
}

impl IoState {
    /// Record the next snapshot.
    pub fn update(&mut self, timestamp: u64, snapshot: &Snapshot)
        ensures
            final(self).two_snapshots.first == old(self).two_snapshots.last,
            final(self).two_snapshots.last == Some::<(u64, Snapshot)>((timestamp, *snapshot)),
    {
        self.two_snapshots.update(timestamp, snapshot);
    }

    fn do_render(&self, s: &Snapshot, width: usize) -> (r: Vec<Vec<u8>>)
        ensures
            rows_view(r@) == spec_render_lines(self.two_snapshots, *s, width as int),
    {
        let mut parts: Vec<Vec<u8>> = Vec::new();
        if let Some(rss) = s.rss {
            let mut part: Vec<u8> = vec![82u8, 83u8, 83u8, 32u8, 61u8, 32u8];
            push_dec(&mut part, rss);
            parts.push(part);
        }
        match self.two_snapshots.cpu_percents() {
            Some(cpu) => {
                let mut part: Vec<u8> = vec![67u8, 80u8, 85u8, 32u8, 61u8, 32u8];
                push_dec(&mut part, cpu);
                part.push(37);
                parts.push(part);
            },
            None => {},
        }
        if s.deferred_materializer_queue_size > 0 {
            let mut part: Vec<u8> = vec![68u8, 77u8, 32u8, 81u8, 117u8, 101u8, 117u8, 101u8, 32u8, 61u8, 32u8];
            push_dec(&mut part, s.deferred_materializer_queue_size);
            parts.push(part);
        }
        if s.blocking_executor_io_queue_size > 0 {
            let mut part: Vec<u8> = vec![73u8, 79u8, 32u8, 81u8, 117u8, 101u8, 117u8, 101u8, 32u8, 61u8, 32u8];
            push_dec(&mut part, s.blocking_executor_io_queue_size);
            parts.push(part);
        }
        proof {
            assert(rows_view(parts@) =~~= spec_status_parts(self.two_snapshots, *s));
        }
        let mut lines: Vec<Vec<u8>> = Vec::new();
        if parts.len() > 0 {
            let mut joined: Vec<u8> = Vec::new();
            let mut i: usize = 0;
            while i < parts.len()
                invariant
                    i <= parts@.len(),
                    parts@.len() > 0,
                    joined@ == spec_join_parts(rows_view(parts@).subrange(0, i as int)),
                decreases parts@.len() - i,
            {
                if i > 0 {
                    joined.push(32);
                    joined.push(32);
                }
                push_bytes(&mut joined, &parts[i]);
                proof {
                    let pv = rows_view(parts@);
                    lemma_join_parts_snoc(pv.subrange(0, i as int), pv[i as int]);
                    assert(pv.subrange(0, i as int).push(pv[i as int]) =~= pv.subrange(
                        0,
                        i + 1 as int,
                    ));
                    if i == 0 {
                        assert(joined@ =~= pv[0]);
                    } else {
                        assert(joined@ =~= spec_join_parts(pv.subrange(0, i as int)) + seq![
                            32u8,
                            32u8,
                        ] + pv[i as int]);
                    }
                }
                i = i + 1;
            }
            proof {
                assert(rows_view(parts@).subrange(0, rows_view(parts@).len() as int) =~= rows_view(
                    parts@,
                ));
            }
            lines.push(joined);
        }
        let nz = io_in_flight_non_zero_counters(s);
        let mut counter_words: Vec<Vec<u8>> = Vec::new();
        let mut c: usize = 0;
        while c < nz.len()
            invariant
                c <= nz@.len(),
                nz@ == spec_nonzero_counters(*s, spec_all_counter_keys().len() as int),
                rows_view(counter_words@) == spec_counter_words(*s).subrange(0, c as int),
            decreases nz@.len() - c,
        {
            let mut word = counter_name(nz[c].0);
            word.push(32);
            word.push(61);
            word.push(32);
            push_dec(&mut word, nz[c].1 as u64);
            let ghost cwb = counter_words@;
            let ghost wordv = word@;
            counter_words.push(word);
            proof {
                assert(spec_counter_words(*s)[c as int] == spec_counter_name(nz@[c as int].0)
                    + seq![32u8, 61u8, 32u8] + spec_dec_digits(nz@[c as int].1 as nat));
                assert(wordv =~= spec_counter_words(*s)[c as int]);
                lemma_rows_view_push(cwb, counter_words@);
                assert(counter_words@[counter_words@.len() - 1]@ == wordv);
                assert(rows_view(counter_words@) =~= spec_counter_words(*s).subrange(
                    0,
                    c + 1 as int,
                ));
            }
            c = c + 1;
        }
        proof {
            assert(spec_counter_words(*s).subrange(0, spec_counter_words(*s).len() as int)
                =~= spec_counter_words(*s));
        }
        let wrapped = words_to_lines(counter_words, width);
        let mut out = lines;
        let ghost out0 = out@;
        let mut wrapped = wrapped;
        let ghost wr = rows_view(wrapped@);
        let mut k: usize = 0;
        while k < wrapped.len()
            invariant
                k <= wrapped@.len(),
                rows_view(wrapped@) == wr,
                rows_view(out@) == rows_view(out0) + wr.subrange(0, k as int),
            decreases wrapped@.len() - k,
        {
            let row = clone_bytes(&wrapped[k]);
            let ghost outb = out@;
            let ghost rowv = row@;
            out.push(row);
            proof {
                lemma_rows_view_push(outb, out@);
                assert(out@[out@.len() - 1]@ == rowv);
                assert(rowv == wr[k as int]);
                assert(rows_view(out@) =~= rows_view(out0) + wr.subrange(0, k + 1 as int));
            }
            k = k + 1;
        }
        proof {
            assert(wr.subrange(0, wr.len() as int) =~= wr);
            assert(rows_view(out@) =~~= spec_render_lines(self.two_snapshots, *s, width as int));
        }
        out
    }

    /// The lines shown for an ongoing draw: nothing when disabled, on
    /// the final draw, or before any snapshot arrived; otherwise the
    /// rendering of the latest snapshot.
    pub fn render(&self, draw_mode: DrawMode, width: usize, enabled: bool) -> (r: Vec<Vec<u8>>)
        ensures
            !enabled ==> r@.len() == 0,
            draw_mode == DrawMode::Final ==> r@.len() == 0,
            self.two_snapshots.last is None ==> r@.len() == 0,
            (enabled && draw_mode == DrawMode::Normal && self.two_snapshots.last is Some)
                ==> rows_view(r@) == spec_render_lines(
                self.two_snapshots,
                self.two_snapshots.last->Some_0.1,
                width as int,
            ),
    {
        if !enabled {
            return Vec::new();
        }
        if matches!(draw_mode, DrawMode::Final) {
            return Vec::new();
        }
        match &self.two_snapshots.last {
            Some(p) => {
                let snapshot = p.1;
                self.do_render(&snapshot, width)
            },
            None => Vec::new(),
        }
    }
}

} // verus!

