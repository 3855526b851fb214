//! When the sampling loop uploads a record: every `upload_interval`-th
//! sample, if cloud storage is on.

use vstd::prelude::*;

verus! {

/// The decision taken after sample `count + 1`: upload (and start counting
/// again) when cloud storage is on and the count reaches the interval.
pub open spec fn upload_step(cloud: bool, interval: u64, count: nat) -> (bool, nat) {
    if cloud && count + 1 == interval {
        (true, 0)
    } else {
        (false, count + 1)
    }
}

/// Counts the samples taken since the last upload.
pub struct UploadCounter {
    read_count: u64,
}

impl UploadCounter {
    /// Samples taken since the last upload.
    pub closed spec fn count(self) -> nat {
        self.read_count as nat
    }

    /// The counter when the loop starts.
    pub fn new() -> (c: UploadCounter)
        ensures
            c.count() == 0,
    {
        UploadCounter { read_count: 0 }
    }

    /// Samples taken since the last upload.
    pub fn read_count(&self) -> (n: u64)
        ensures
            n as nat == self.count(),
    {
        self.read_count
    }

    /// Accounts for one sample; true when this sample is to be uploaded.
    pub fn tick(&mut self, cloud_storage: bool, upload_interval: u64) -> (upload: bool)
        requires
            old(self).count() < u64::MAX,
        ensures
            (upload, final(self).count()) == upload_step(
                cloud_storage,
                upload_interval,
                old(self).count(),
            ),
    {
        self.read_count = self.read_count + 1;
        if cloud_storage && self.read_count == upload_interval {
            self.read_count = 0;
            true
        } else {
            false
        }
    }
}

/// The count after `k` samples with fixed settings.
pub open spec fn count_after(cloud: bool, interval: u64, k: nat) -> nat
    decreases k,
{
    if k == 0 {
        0
    } else {
        upload_step(cloud, interval, count_after(cloud, interval, (k - 1) as nat)).1
    }
}

/// Whether sample number `k` (counting from 1) is uploaded.
pub open spec fn uploads_at(cloud: bool, interval: u64, k: nat) -> bool
    recommends
        k >= 1,
{
    upload_step(cloud, interval, count_after(cloud, interval, (k - 1) as nat)).0
}

/// With cloud storage on and a positive interval `n`, exactly the samples
/// whose number is a multiple of `n` are uploaded, and the counter stays
/// below `n`.
pub proof fn lemma_upload_every_n(interval: u64, k: nat)
    requires
        interval >= 1,
    ensures
        count_after(true, interval, k) == k % (interval as nat),
        count_after(true, interval, k) < interval,
        k >= 1 ==> (uploads_at(true, interval, k) <==> k % (interval as nat) == 0),
    decreases k,
{
    if k > 0 {
        let km1 = (k - 1) as nat;
        let e = interval as nat;
        lemma_upload_every_n(interval, km1);
        let p = count_after(true, interval, km1);
        assert(k % e == (if p + 1 == e { 0 } else { p + 1 })) by (nonlinear_arith)
            requires
                p == km1 % e,
                k == km1 + 1,
                e >= 1,
                p < e,
        ;
    }
}

/// With cloud storage off nothing is ever uploaded; the counter just
/// counts the samples.
pub proof fn lemma_no_upload_when_off(interval: u64, k: nat)
    ensures
        count_after(false, interval, k) == k,
        k >= 1 ==> !uploads_at(false, interval, k),
    decreases k,
{
    if k > 0 {
        lemma_no_upload_when_off(interval, (k - 1) as nat);
    }
}

} // verus!
