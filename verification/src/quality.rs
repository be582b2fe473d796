//! Link quality, sampled by TCP connections.
//!
//! Where ICMP is filtered, the time that a TCP handshake takes is a round trip
//! and a connection that times out is a loss.

use crate::binary64;
use crate::binary64::Binary64;
use crate::rounding;
use crate::text;
use vstd::prelude::*;

verus! {

/// The outcome of one connection.
#[derive(Clone, Copy, Debug, PartialEq, Eq, Structural)]
pub enum Sample {
    /// The connection was made, after so many milliseconds.
    Connected(u64),
    /// The host refused it, after so many milliseconds: it is reachable.
    Refused(u64),
    /// No answer came.
    Lost,
}

impl Sample {
    /// The round trip of an answered sample; less than a millisecond counts as one.
    pub open spec fn round_trip(self) -> Option<nat> {
        match self {
            Sample::Connected(ms) | Sample::Refused(ms) => Some(
                if ms == 0 {
                    1
                } else {
                    ms as nat
                },
            ),
            Sample::Lost => None,
        }
    }
}

/// What a series of samples came to.
#[derive(Clone, Copy, Debug)]
pub struct QualityStats {
    pub sent: u32,
    pub succeeded: u32,
    pub min_ms: u64,
    pub max_ms: u64,
    pub avg_ms: Binary64,
}

/// The numbers of a series of samples; `avg` in units of 2^-1074.
pub ghost struct Quality {
    pub sent: nat,
    pub succeeded: nat,
    pub min: nat,
    pub max: nat,
    pub avg: nat,
}

/// The series with one more sample.
pub open spec fn after(q: Quality, s: Sample) -> Quality {
    match s.round_trip() {
        None => Quality { sent: q.sent + 1, ..q },
        Some(ms) => Quality {
            sent: q.sent + 1,
            succeeded: q.succeeded + 1,
            min: if q.succeeded == 0 || ms < q.min {
                ms
            } else {
                q.min
            },
            max: if ms > q.max {
                ms
            } else {
                q.max
            },
            avg: binary64::mean_after(q.avg, q.succeeded + 1, ms),
        },
    }
}

/// What a series of samples comes to, from the first one on.
pub open spec fn sampled(series: Seq<Sample>) -> Quality
    decreases series.len(),
{
    if series.len() == 0 {
        Quality { sent: 0, succeeded: 0, min: 0, max: 0, avg: 0 }
    } else {
        after(sampled(series.drop_last()), series.last())
    }
}

/// The share of lost samples, in percent.
pub open spec fn loss(q: Quality) -> nat {
    binary64::product_percent((q.sent - q.succeeded) as nat, q.sent)
}

/// A series in words.
pub open spec fn quality_text(q: Quality) -> Seq<char> {
    if q.succeeded == 0 {
        text::dec(q.sent) + " 次采样均无有效样本"@
    } else {
        "采样成功 "@ + text::dec(q.succeeded) + "/"@ + text::dec(q.sent) + "，丢包 "@
            + binary64::fixed0(loss(q)) + "%，时延 平均 "@ + binary64::fixed0(q.avg) + " / 最小 "@
            + text::dec(q.min) + " / 最大 "@ + text::dec(q.max) + " ms"@
    }
}

impl Default for QualityStats {
    /// No samples yet.
    fn default() -> (r: Self)
        ensures
            r@ == sampled(Seq::empty()),
    {
        QualityStats { sent: 0, succeeded: 0, min_ms: 0, max_ms: 0, avg_ms: Binary64::zero() }
    }
}

impl QualityStats {
    /// The numbers of the series.
    pub open spec fn view(&self) -> Quality {
        Quality {
            sent: self.sent as nat,
            succeeded: self.succeeded as nat,
            min: self.min_ms as nat,
            max: self.max_ms as nat,
            avg: self.avg_ms@,
        }
    }

    /// No more answers than samples.
    pub open spec fn wf(&self) -> bool {
        self.succeeded <= self.sent
    }

    /// The share of lost samples, in percent.
    pub fn loss_pct(&self) -> (r: Binary64)
        requires
            self.wf(),
        ensures
            r@ == loss(self@),
    {
        Binary64::product_percent(self.sent - self.succeeded, self.sent)
    }

    /// Takes in the round trip of the sample that was just counted as answered.
    pub fn record(&mut self, elapsed_ms: u64)
        requires
            old(self).succeeded >= 1,
        ensures
            final(self).sent == old(self).sent,
            final(self).succeeded == old(self).succeeded,
            ({
                let ms = if elapsed_ms == 0 {
                    1
                } else {
                    elapsed_ms
                };
                &&& final(self).min_ms == if old(self).succeeded == 1 || ms < old(self).min_ms {
                    ms
                } else {
                    old(self).min_ms
                }
                &&& final(self).max_ms == if ms > old(self).max_ms {
                    ms
                } else {
                    old(self).max_ms
                }
                &&& final(self).avg_ms@ == binary64::mean_after(
                    old(self).avg_ms@,
                    old(self).succeeded as nat,
                    ms as nat,
                )
            }),
    {
        let ms: u64 = if elapsed_ms == 0 {
            1
        } else {
            elapsed_ms
        };
        if self.succeeded == 1 || ms < self.min_ms {
            self.min_ms = ms;
        }
        if ms > self.max_ms {
            self.max_ms = ms;
        }
        self.avg_ms = self.avg_ms.mean_after(self.succeeded, ms);
    }

    /// Takes in one more sample.
    pub fn take(&mut self, s: Sample)
        requires
            old(self).wf(),
            old(self).sent < u32::MAX,
        ensures
            final(self).wf(),
            final(self)@ == after(old(self)@, s),
    {
        match s {
            Sample::Connected(ms) => {
                self.succeeded = self.succeeded + 1;
                self.record(ms);
            },
            Sample::Refused(ms) => {
                self.succeeded = self.succeeded + 1;
                self.record(ms);
            },
            Sample::Lost => {},
        }
        self.sent = self.sent + 1;
    }
}

/// Says in words what a series of samples came to.
pub fn fmt_quality(s: &QualityStats) -> (t: String)
    requires
        s.wf(),
    ensures
        t@ == quality_text(s@),
{
    if s.succeeded == 0 {
        let mut t = text::decimal(s.sent as u128);
        t.append(" 次采样均无有效样本");
        t
    } else {
        let mut t = "采样成功 ".to_string();
        t.append(text::decimal(s.succeeded as u128).as_str());
        t.append("/");
        t.append(text::decimal(s.sent as u128).as_str());
        t.append("，丢包 ");
        t.append(s.loss_pct().fixed0().as_str());
        t.append("%，时延 平均 ");
        t.append(s.avg_ms.fixed0().as_str());
        t.append(" / 最小 ");
        t.append(text::decimal(s.min_ms as u128).as_str());
        t.append(" / 最大 ");
        t.append(text::decimal(s.max_ms as u128).as_str());
        t.append(" ms");
        t
    }
}

/// A series of samples that is being taken: `count` of them.
#[derive(Debug)]
pub struct Sampling {
    pub stats: QualityStats,
    pub count: u32,
}

impl Sampling {
    /// No more samples than asked for.
    pub open spec fn wf(&self) -> bool {
        self.stats.wf() && self.stats.sent <= self.count
    }

    /// A series of which no sample was taken.
    pub fn new(count: u32) -> (r: Self)
        ensures
            r.wf(),
            r.count == count,
            r.stats@ == sampled(Seq::empty()),
    {
        Sampling { stats: QualityStats::default(), count }
    }

    /// Whether another sample is to be taken.
    pub fn wants_more(&self) -> (r: bool)
        requires
            self.wf(),
        ensures
            r == (self.stats.sent < self.count),
    {
        self.stats.sent < self.count
    }

    /// Whether to pause before the next sample: between two samples, not before
    /// the first.
    pub fn pauses(&self) -> (r: bool)
        ensures
            r == (0 < self.stats.sent < self.count),
    {
        0 < self.stats.sent && self.stats.sent < self.count
    }

    /// Takes in one more sample.
    pub fn record(&mut self, s: Sample)
        requires
            old(self).wf(),
            old(self).stats.sent < old(self).count,
        ensures
            final(self).wf(),
            final(self).count == old(self).count,
            final(self).stats@ == after(old(self).stats@, s),
    {
        self.stats.take(s);
    }
}

/// What is told after `done` of `count` samples: every tenth one and the last.
pub open spec fn progress_text(label: Seq<char>, done: nat, count: nat) -> Option<Seq<char>> {
    if done % 10 == 0 || done == count {
        Some(label + " TCP 采样进度 "@ + text::dec(done) + "/"@ + text::dec(count))
    } else {
        None
    }
}

/// Tells how far the sampling is, after every tenth sample and the last.
pub fn progress(label: &str, done: u32, count: u32) -> (r: Option<String>)
    ensures
        text::optional(r) == progress_text(label@, done as nat, count as nat),
{
    if done % 10 == 0 || done == count {
        let mut t = label.to_string();
        t.append(" TCP 采样进度 ");
        t.append(text::decimal(done as u128).as_str());
        t.append("/");
        t.append(text::decimal(count as u128).as_str());
        Some(t)
    } else {
        None
    }
}

/// How many of the samples were answered.
pub open spec fn answered(series: Seq<Sample>) -> nat
    decreases series.len(),
{
    if series.len() == 0 {
        0
    } else {
        answered(series.drop_last()) + if series.last() is Lost {
            0nat
        } else {
            1nat
        }
    }
}

/// Only a sample without an answer is a loss: a refused connection counts as
/// answered, and every sample counts as sent. The extremes of the round trips
/// are those of the answered samples.
pub proof fn law_samples_counted(series: Seq<Sample>)
    ensures
        sampled(series).sent == series.len(),
        sampled(series).succeeded == answered(series) <= series.len(),
        forall|i: int|
            #![trigger series[i]]
            0 <= i < series.len() ==> match series[i].round_trip() {
                Some(ms) => sampled(series).min <= ms <= sampled(series).max,
                None => true,
            },
        answered(series) == 0 ==> sampled(series).min == 0 && sampled(series).max == 0,
        answered(series) > 0 ==> {
            &&& exists|i: int|
                0 <= i < series.len() && #[trigger] series[i].round_trip() == Some(
                    sampled(series).min,
                )
            &&& exists|i: int|
                0 <= i < series.len() && #[trigger] series[i].round_trip() == Some(
                    sampled(series).max,
                )
        },
    decreases series.len(),
{
    if series.len() > 0 {
        let init = series.drop_last();
        law_samples_counted(init);
        let q = sampled(init);
        let last = series.len() - 1;
        assert(series[last] == series.last());
        assert forall|i: int| #![trigger series[i]] 0 <= i < series.len() implies match series[i].round_trip() {
            Some(ms) => sampled(series).min <= ms <= sampled(series).max,
            None => true,
        } by {
            if i < last {
                assert(init[i] == series[i]);
                lemma_unanswered(init, i);
            }
        }
        if answered(series) > 0 {
            if answered(init) > 0 {
                let a = choose|i: int|
                    0 <= i < init.len() && #[trigger] init[i].round_trip() == Some(q.min);
                let b = choose|i: int|
                    0 <= i < init.len() && #[trigger] init[i].round_trip() == Some(q.max);
                assert(init[a] == series[a]);
                assert(init[b] == series[b]);
            }
            assert(series[last].round_trip() == series.last().round_trip());
        }
    }
}

/// The share of lost samples lies between 0 and 100 percent; it is 0 exactly where
/// all were answered, and 100 exactly where none was.
pub proof fn law_loss_in_percent(series: Seq<Sample>)
    requires
        0 < series.len() <= u32::MAX,
    ensures
        loss(sampled(series)) <= 100 * rounding::one(),
        loss(sampled(series)) == 0 <==> answered(series) == series.len(),
        loss(sampled(series)) == 100 * rounding::one() <==> answered(series) == 0,
{
    law_samples_counted(series);
    binary64::law_percent((series.len() - answered(series)) as nat, series.len());
}

/// Where no sample was answered, none of them has a round trip.
proof fn lemma_unanswered(series: Seq<Sample>, i: int)
    requires
        0 <= i < series.len(),
    ensures
        series[i].round_trip() is Some ==> answered(series) > 0,
    decreases series.len(),
{
    if i < series.len() - 1 {
        assert(series.drop_last()[i] == series[i]);
        lemma_unanswered(series.drop_last(), i);
    }
}

/// The round trip of a sample that was accepted or refused, of at least 1 ms; `None` for
/// one that got no answer.
pub open spec fn took(s: Sample) -> Option<nat> {
    if s is Connected && s->Connected_0 > 0 {
        Some(s->Connected_0 as nat)
    } else if s is Refused && s->Refused_0 > 0 {
        Some(s->Refused_0 as nat)
    } else if s is Lost {
        None
    } else {
        Some(1)
    }
}

/// A series in numbers: every sample is sent; every one that was accepted or refused
/// succeeded, and no other; the extremes are the smallest and the largest time that
/// one of those took, or 0 where there is none.
pub proof fn law_series_in_numbers(series: Seq<Sample>)
    ensures
        sampled(series).sent == series.len(),
        sampled(series).succeeded == series.filter(|s: Sample| !(s is Lost)).len(),
        forall|i: int|
            #![trigger series[i]]
            0 <= i < series.len() && took(series[i]) is Some ==> sampled(series).min <= took(
                series[i],
            )->0 <= sampled(series).max,
        sampled(series).succeeded > 0 ==> {
            &&& exists|i: int|
                0 <= i < series.len() && took(#[trigger] series[i]) == Some(sampled(series).min)
            &&& exists|i: int|
                0 <= i < series.len() && took(#[trigger] series[i]) == Some(sampled(series).max)
        },
        sampled(series).succeeded == 0 ==> sampled(series).min == 0 && sampled(series).max == 0
            && sampled(series).avg == 0,
    decreases series.len(),
{
    law_samples_counted(series);
    assert forall|i: int| 0 <= i < series.len() implies took(#[trigger] series[i])
        == series[i].round_trip() by {}
    lemma_answered(series);
    if answered(series) > 0 {
        let i = choose|i: int|
            0 <= i < series.len() && #[trigger] series[i].round_trip() == Some(sampled(series).min);
        let j = choose|i: int|
            0 <= i < series.len() && #[trigger] series[i].round_trip() == Some(sampled(series).max);
        assert(took(series[i]) == Some(sampled(series).min));
        assert(took(series[j]) == Some(sampled(series).max));
    }
}

proof fn lemma_answered(series: Seq<Sample>)
    ensures
        answered(series) == series.filter(|s: Sample| !(s is Lost)).len(),
        answered(series) == 0 ==> sampled(series).avg == 0 && sampled(series).succeeded == 0,
    decreases series.len(),
{
    reveal(Seq::filter);
    if series.len() > 0 {
        lemma_answered(series.drop_last());
    }
}

/// One more answered sample draws the average towards it: the new average is the old
/// one and the new round trip, weighted by their numbers, up to the rounding of the
/// last digits. A lost sample leaves it as it is.
pub proof fn law_average_is_weighted(q: Quality, s: Sample)
    requires
        q.succeeded < u32::MAX,
        q.avg == 0 || q.avg >= rounding::one(),
    ensures
        took(s) matches Some(ms) ==> {
            let n = q.succeeded + 1;
            let exact = q.avg * q.succeeded + ms * rounding::one();
            let t = n * after(q, s).avg;
            &&& 0x4_0000_0000_0000 * t <= 0x4_0000_0000_0001 * exact
            &&& 0x3_ffff_ffff_ffff * exact <= 0x4_0000_0000_0000 * t
        },
        took(s) is None ==> after(q, s).avg == q.avg,
{
    if let Some(ms) = took(s) {
        binary64::lemma_mean_relative(q.avg, q.succeeded + 1, ms);
    }
}

/// A series is told with how many samples succeeded of how many, the share that was
/// lost, and the average, smallest and largest round trip; where none succeeded, just
/// with how many were taken.
pub proof fn law_series_in_words(q: Quality)
    ensures
        q.succeeded == 0 ==> quality_text(q) == text::dec(q.sent) + " 次采样均无有效样本"@,
        q.succeeded > 0 ==> {
            let pct = binary64::fixed0(
                binary64::product_percent((q.sent - q.succeeded) as nat, q.sent),
            );
            let t = "采样成功 "@ + text::dec(q.succeeded) + "/"@ + text::dec(q.sent) + "，丢包 "@ + pct
                + "%，时延 平均 "@ + binary64::fixed0(q.avg) + " / 最小 "@ + text::dec(q.min) + " / 最大 "@
                + text::dec(q.max) + " ms"@;
            quality_text(q) == t
        },
{
}

/// Progress is told after every tenth sample and after the last one, and at no other
/// time.
pub proof fn law_progress_is_told(label: Seq<char>, done: nat, count: nat)
    ensures
        progress_text(label, done, count) is Some <==> done == count || done % 10 == 0,
        progress_text(label, done, count) matches Some(t) ==> t == label + " TCP 采样进度 "@ + text::dec(
            done,
        ) + "/"@ + text::dec(count),
{
}

/// Samples are taken until as many are there as were asked for, with a pause before
/// each but the first.
pub proof fn law_sampling_goes_on(s: &Sampling, more: bool, pause: bool)
    requires
        call_ensures(Sampling::wants_more, (s,), more),
        call_ensures(Sampling::pauses, (s,), pause),
    ensures
        more <==> s.stats.sent < s.count,
        pause <==> more && s.stats.sent != 0,
{
}

} // verus!
