//! Progress of a download and of an archive extraction, and when it is
//! reported.

use vstd::prelude::*;

verus! {

/// The state of a download whose progress is reported in percent: a report
/// is made when the percentage has grown by at least five points since the
/// last report, or reaches one hundred.
#[derive(Debug, Clone, Copy, PartialEq, Eq)]
pub struct DownloadProgress {
    /// Bytes received so far
    pub downloaded: u64,
    /// Announced size in bytes; zero when unknown, and then nothing is reported
    pub total_size: u64,
    /// The percentage last reported
    pub last_emitted_percent: u64,
}

/// The percentage of `total` that `done` makes, rounded down.
pub open spec fn percent_of(done: int, total: int) -> int {
    (done * 100) / total
}

impl DownloadProgress {
    /// The reported percentage never runs ahead of the download.
    pub open spec fn wf(&self) -> bool {
        &&& self.total_size == 0 ==> self.last_emitted_percent == 0
        &&& self.total_size > 0 ==> self.last_emitted_percent <= percent_of(
            self.downloaded as int,
            self.total_size as int,
        )
    }

    /// A chunk of `chunk_len` bytes can be counted without overflow.
    pub open spec fn can_record(&self, chunk_len: u64) -> bool {
        &&& self.downloaded + chunk_len <= u64::MAX
        &&& self.total_size > 0 ==> (self.downloaded + chunk_len) * 100 <= u64::MAX
        &&& self.total_size > 0 ==> self.last_emitted_percent + 5 <= u64::MAX
    }

    /// A download of `total_size` bytes (zero when unknown) that has not
    /// started.
    pub fn new(total_size: u64) -> (res: DownloadProgress)
        ensures
            res.downloaded == 0,
            res.total_size == total_size,
            res.last_emitted_percent == 0,
            res.wf(),
    {
        DownloadProgress { downloaded: 0, total_size, last_emitted_percent: 0 }
    }

    /// Counts a received chunk; returns the percentage to report, if one is
    /// due.
    pub fn record_chunk(&mut self, chunk_len: u64) -> (res: Option<u64>)
        requires
            old(self).can_record(chunk_len),
        ensures
            final(self).downloaded == old(self).downloaded + chunk_len,
            final(self).total_size == old(self).total_size,
            res == (if old(self).total_size > 0 && (percent_of(
                final(self).downloaded as int,
                old(self).total_size as int,
            ) >= old(self).last_emitted_percent + 5 || percent_of(
                final(self).downloaded as int,
                old(self).total_size as int,
            ) == 100) {
                Some(percent_of(final(self).downloaded as int, old(self).total_size as int) as u64)
            } else {
                None::<u64>
            }),
            final(self).last_emitted_percent == match res {
                Some(p) => p,
                None => old(self).last_emitted_percent,
            },
            old(self).wf() ==> final(self).wf(),
            old(self).wf() ==> final(self).last_emitted_percent >= old(self).last_emitted_percent,
    {
        let ghost old_downloaded = self.downloaded;
        self.downloaded = self.downloaded + chunk_len;
        if self.total_size > 0 {
            let percent = (self.downloaded * 100) / self.total_size;
            proof {
                let t = self.total_size as int;
                assert(old_downloaded * 100 <= self.downloaded * 100) by (nonlinear_arith)
                    requires
                        old_downloaded <= self.downloaded,
                ;
                vstd::arithmetic::div_mod::lemma_div_is_ordered(
                    old_downloaded * 100,
                    self.downloaded * 100,
                    t,
                );
            }
            if percent >= self.last_emitted_percent + 5 || percent == 100 {
                self.last_emitted_percent = percent;
                return Some(percent);
            }
        }
        None
    }
}

/// The percentage of an extraction once the entry at `index` (counted from
/// zero) of `total` entries is done.
pub fn extraction_percent(index: u64, total: u64) -> (res: u64)
    requires
        index < total,
        (index + 1) * 100 <= u64::MAX,
    ensures
        res == percent_of(index + 1, total as int),
        res <= 100,
{
    proof {
        vstd::arithmetic::div_mod::lemma_div_is_ordered((index + 1) * 100, total * 100, total as int);
        vstd::arithmetic::div_mod::lemma_div_multiples_vanish(100, total as int);
        assert((index + 1) * 100 <= total * 100) by (nonlinear_arith)
            requires
                index + 1 <= total,
        ;
    }
    ((index + 1) * 100) / total
}

} // verus!
