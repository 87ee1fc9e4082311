//! Downloading the models: when a download reports its progress, and the name
//! it writes to before the file is complete.
use vstd::prelude::*;

verus! {

/// The progress of a download as reported to the interface.
#[derive(Clone, Copy, Debug)]
pub struct StreamingProgress {
    pub percentage: u64,
    pub current: u64,
    pub total: u64,
}

/// What a download has received so far, out of `total` bytes (0 when the size
/// is unknown), and the last percentage it reported.
#[derive(Clone, Copy, Debug)]
pub struct DownloadTracker {
    pub downloaded: u64,
    pub last_percent: u64,
    pub total: u64,
}

/// The tracker and report after a chunk of `chunk_len` bytes arrived: progress
/// is reported only when the size is known and the whole percentage grew.
pub open spec fn progress_step(t: DownloadTracker, chunk_len: u64) -> (DownloadTracker, Option<StreamingProgress>) {
    let d = (t.downloaded + chunk_len) as u64;
    let p = if t.total > 0 {
        ((d * 100) / (t.total as int)) as u64
    } else {
        0
    };
    if t.total > 0 && p > t.last_percent {
        (
            DownloadTracker { downloaded: d, last_percent: p, total: t.total },
            Some(StreamingProgress { percentage: p, current: d, total: t.total }),
        )
    } else {
        (DownloadTracker { downloaded: d, ..t }, None)
    }
}

impl DownloadTracker {
    /// A download of `total` bytes (0 when unknown) that has received nothing.
    pub fn new(total: u64) -> (t: Self)
        ensures
            t.downloaded == 0,
            t.last_percent == 0,
            t.total == total,
    {
        DownloadTracker { downloaded: 0, last_percent: 0, total }
    }

    /// Counts a chunk of `chunk_len` bytes and returns the progress to report,
    /// if any.
    pub fn record_chunk(&mut self, chunk_len: u64) -> (r: Option<StreamingProgress>)
        requires
            old(self).downloaded + chunk_len <= u64::MAX,
            old(self).total > 0 ==> (old(self).downloaded + chunk_len) * 100 <= u64::MAX,
        ensures
            (*final(self), r) == progress_step(*old(self), chunk_len),
    {
        self.downloaded = self.downloaded + chunk_len;
        if self.total > 0 {
            let percentage = (self.downloaded * 100) / self.total;
            if percentage > self.last_percent {
                self.last_percent = percentage;
                return Some(
                    StreamingProgress { percentage, current: self.downloaded, total: self.total },
                );
            }
        }
        None
    }
}

/// The percentages reported over a run of chunks.
pub open spec fn reported_percentages(t: DownloadTracker, chunks: Seq<u64>) -> Seq<u64>
    decreases chunks.len(),
{
    if chunks.len() == 0 {
        Seq::empty()
    } else {
        let (t2, r) = progress_step(t, chunks[0]);
        let rest = reported_percentages(t2, chunks.drop_first());
        match r {
            Some(p) => seq![p.percentage] + rest,
            None => rest,
        }
    }
}

/// Progress only moves forward: over any run of chunks, each reported
/// percentage is above the last one reported before the run and above every
/// percentage reported earlier in it.
pub proof fn lemma_progress_strictly_increases(t: DownloadTracker, chunks: Seq<u64>)
    ensures
        forall|i: int| 0 <= i < reported_percentages(t, chunks).len() ==> #[trigger] reported_percentages(t, chunks)[i] > t.last_percent,
        forall|i: int, j: int| 0 <= i < j < reported_percentages(t, chunks).len() ==> #[trigger] reported_percentages(t, chunks)[i] < #[trigger] reported_percentages(t, chunks)[j],
    decreases chunks.len(),
{
    if chunks.len() > 0 {
        let (t2, r) = progress_step(t, chunks[0]);
        lemma_progress_strictly_increases(t2, chunks.drop_first());
        let rest = reported_percentages(t2, chunks.drop_first());
        let all = reported_percentages(t, chunks);
        assert(t2.last_percent >= t.last_percent);
        match r {
            Some(p) => {
                assert(all == seq![p.percentage] + rest);
                assert(p.percentage == t2.last_percent);
                assert forall|i: int, j: int| 0 <= i < j < all.len() implies #[trigger] all[i] < #[trigger] all[j] by {
                    if i > 0 {
                        assert(all[i] == rest[i - 1] && all[j] == rest[j - 1]);
                    } else {
                        assert(all[j] == rest[j - 1]);
                    }
                }
                assert forall|i: int| 0 <= i < all.len() implies #[trigger] all[i] > t.last_percent by {
                    if i > 0 {
                        assert(all[i] == rest[i - 1]);
                    }
                }
            },
            None => {
                assert(all == rest);
            },
        }
    }
}

/// A reported percentage never exceeds 100 while no more than the announced
/// size has arrived.
pub proof fn lemma_percentage_within_bounds(t: DownloadTracker, chunk_len: u64)
    requires
        t.downloaded + chunk_len <= t.total,
    ensures
        progress_step(t, chunk_len).1 matches Some(p) ==> p.percentage <= 100,
{
    let d = (t.downloaded + chunk_len) as u64;
    if t.total > 0 {
        let total = t.total as int;
        assert((d * 100) / total <= 100) by (nonlinear_arith)
            requires
                0 <= d <= total,
                total > 0,
        {
            assert(d * 100 <= total * 100);
        }
    }
}

/// The name a download writes to until it is complete: the destination's file
/// name, or "download" when it has none, with ".part" appended.
pub fn partial_file_name(file_name: Option<&str>) -> (n: String)
    ensures
        n@ == match file_name {
            Some(f) => f@,
            None => "download"@,
        } + ".part"@,
{
    let mut n = match file_name {
        Some(f) => f.to_owned(),
        None => "download".to_owned(),
    };
    n.append(".part");
    n
}

} // verus!
