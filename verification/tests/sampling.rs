use zhuge_netdiag::quality::{fmt_quality, progress, QualityStats, Sample, Sampling};

#[test]
fn refused_connections_are_answers_and_lost_ones_are_not() {
    let mut s = Sampling::new(4);
    assert!(s.wants_more());
    assert!(!s.pauses());
    s.record(Sample::Connected(30));
    assert!(s.pauses());
    s.record(Sample::Lost);
    s.record(Sample::Refused(10));
    s.record(Sample::Connected(0));
    assert!(!s.wants_more());
    assert!(!s.pauses());
    assert_eq!(s.stats.sent, 4);
    assert_eq!(s.stats.succeeded, 3);
    assert_eq!(s.stats.min_ms, 1);
    assert_eq!(s.stats.max_ms, 30);
    assert_eq!(s.stats.loss_pct().fixed0(), "25");
    assert_eq!(
        fmt_quality(&s.stats),
        "采样成功 3/4，丢包 25%，时延 平均 14 / 最小 1 / 最大 30 ms"
    );
}

#[test]
fn a_series_without_answers_is_told_so() {
    let mut q = QualityStats::default();
    assert_eq!(fmt_quality(&q), "0 次采样均无有效样本");
    assert_eq!(q.loss_pct().fixed0(), "0");
    q.take(Sample::Lost);
    q.take(Sample::Lost);
    assert_eq!(fmt_quality(&q), "2 次采样均无有效样本");
    assert_eq!(q.loss_pct().fixed0(), "100");
    assert_eq!((q.min_ms, q.max_ms), (0, 0));
}

#[test]
fn the_first_answer_sets_the_extremes() {
    let mut q = QualityStats::default();
    q.take(Sample::Lost);
    q.take(Sample::Connected(50));
    assert_eq!((q.min_ms, q.max_ms), (50, 50));
    q.take(Sample::Connected(70));
    assert_eq!((q.min_ms, q.max_ms), (50, 70));
    q.take(Sample::Refused(40));
    assert_eq!((q.min_ms, q.max_ms), (40, 70));
    assert_eq!(q.avg_ms.fixed0(), "53");
}

#[test]
fn no_samples_are_wanted_where_none_are_asked_for() {
    assert!(!Sampling::new(0).wants_more());
}

#[test]
fn progress_is_told_at_every_tenth_sample_and_the_last() {
    let told: Vec<u32> = (1..=25).filter(|n| progress("网关段", *n, 25).is_some()).collect();
    assert_eq!(told, vec![10, 20, 25]);
    assert_eq!(progress("网关段", 10, 25), Some("网关段 TCP 采样进度 10/25".to_string()));
    assert_eq!(progress("端到端", 25, 25), Some("端到端 TCP 采样进度 25/25".to_string()));
    assert_eq!(progress("端到端", 7, 25), None);
}
