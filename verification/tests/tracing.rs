use zhuge_netdiag::addr::Ipv4Addr;
use zhuge_netdiag::icmp::{Reply, IP_REQ_TIMED_OUT, IP_SUCCESS, IP_TTL_EXPIRED_TRANSIT};
use zhuge_netdiag::trace::{fmt_stats, hop_stat, ping_stats, stats_from, table, PingStats, Route};

fn reply(status: u32, d: u8, rtt_ms: u32) -> Option<Reply> {
    Some(Reply { status, responder: Ipv4Addr::new(10, 0, 0, d), rtt_ms, timed_out: false })
}

#[test]
fn pings_are_summed_up() {
    let s = stats_from(&vec![10, 12, 11], 4);
    assert_eq!((s.sent, s.received, s.min_ms, s.max_ms), (4, 3, 10, 12));
    assert_eq!(s.avg_ms.fixed1(), "11.0");
    assert_eq!(s.loss_pct().fixed1(), "25.0");
    assert_eq!(fmt_stats(&s), "收到 3/4 个应答，丢包 25.0%，平均 11.0ms（最小 10 / 最大 12ms）");
}

#[test]
fn more_round_trips_than_pings_are_summed_up_too() {
    let s = stats_from(&vec![4, 6], 1);
    assert_eq!((s.sent, s.received, s.min_ms, s.max_ms), (1, 2, 4, 6));
    assert_eq!(s.avg_ms.fixed1(), "5.0");
}

#[test]
fn pings_without_answers_are_all_lost() {
    let s = stats_from(&vec![], 8);
    assert_eq!((s.sent, s.received, s.min_ms, s.max_ms), (8, 0, 0, 0));
    assert_eq!(fmt_stats(&s), "收到 0/8 个应答，丢包 100%");
    assert_eq!(s.loss_pct().fixed1(), "100.0");
    assert_eq!(PingStats::default().loss_pct().fixed1(), "0.0");
}

#[test]
fn only_the_target_answers_a_ping() {
    let s = ping_stats(&vec![
        reply(IP_SUCCESS, 1, 5),
        None,
        reply(IP_TTL_EXPIRED_TRANSIT, 2, 1),
        reply(IP_REQ_TIMED_OUT, 0, 0),
        reply(IP_SUCCESS, 1, 8),
    ]);
    assert_eq!((s.sent, s.received, s.min_ms, s.max_ms), (5, 2, 5, 8));
    assert_eq!(s.avg_ms.fixed1(), "6.5");
}

#[test]
fn a_hop_is_who_answers_most_often() {
    let h = hop_stat(
        3,
        &vec![
            reply(IP_TTL_EXPIRED_TRANSIT, 9, 4),
            reply(IP_TTL_EXPIRED_TRANSIT, 2, 6),
            reply(IP_TTL_EXPIRED_TRANSIT, 9, 5),
            None,
            reply(IP_REQ_TIMED_OUT, 0, 0),
        ],
    );
    assert_eq!(h.ttl, 3);
    assert_eq!(h.responder, Some(Ipv4Addr::new(10, 0, 0, 9)));
    assert_eq!(h.responders, vec![Ipv4Addr::new(10, 0, 0, 2), Ipv4Addr::new(10, 0, 0, 9)]);
    assert_eq!((h.sent, h.received, h.min_ms, h.max_ms), (5, 3, 4, 6));
    assert_eq!(h.reached_dest, 0);
    assert_eq!(h.loss_pct().fixed0(), "40");
}

#[test]
fn a_hop_that_does_not_answer_is_silent() {
    let h = hop_stat(1, &vec![None, None]);
    assert_eq!(h.responder, None);
    assert!(h.responders.is_empty());
    assert_eq!((h.sent, h.received), (2, 0));
}

#[test]
fn a_route_is_explored_until_the_target_answers() {
    let mut r = Route::new(30);
    assert_eq!(r.next_ttl(), Some(1));
    r.record(Some(hop_stat(1, &vec![reply(IP_TTL_EXPIRED_TRANSIT, 1, 1)])));
    assert_eq!(r.next_ttl(), Some(2));
    r.record(None);
    assert_eq!(r.next_ttl(), Some(3));
    r.record(Some(hop_stat(3, &vec![reply(IP_SUCCESS, 7, 9)])));
    assert_eq!(r.next_ttl(), None);
    let ttls: Vec<u8> = r.into_hops().iter().map(|h| h.ttl).collect();
    assert_eq!(ttls, vec![1, 3]);
}

#[test]
fn a_route_is_explored_no_further_than_asked() {
    assert_eq!(Route::new(0).next_ttl(), None);
    let mut r = Route::new(255);
    let mut n = 0;
    while let Some(ttl) = r.next_ttl() {
        n += 1;
        assert_eq!(ttl as usize, n);
        r.record(Some(hop_stat(ttl, &vec![None])));
    }
    assert_eq!(n, 255);
    assert_eq!(r.into_hops().len(), 255);
}

#[test]
fn hops_are_set_in_a_table() {
    let hops = vec![
        hop_stat(1, &vec![reply(IP_TTL_EXPIRED_TRANSIT, 1, 2), reply(IP_TTL_EXPIRED_TRANSIT, 1, 3)]),
        hop_stat(2, &vec![None, None]),
        hop_stat(3, &vec![reply(IP_SUCCESS, 7, 9), None]),
        hop_stat(4, &vec![None, None]),
    ];
    let lines = table(&hops);
    assert_eq!(
        lines,
        vec![
            format!(
                "    {:<4} {:<17} {:<8} {:<7} {}",
                "跳数", "节点地址", "应答/发出", "丢包率", "时延 平均/最小/最大 (ms)"
            ),
            format!("    {:<4} {:<17} {:<8} {:<7} {}", 1, "10.0.0.1", "2/2", "0%", "2.5 / 2 / 3"),
            format!(
                "    {:<4} {:<17} {:<8} {:<7} {}{}",
                2, "*", "0/2", "100%", "-", "  (不回应 ICMP，但其后节点可达)"
            ),
            format!(
                "    {:<4} {:<17} {:<8} {:<7} {}{}",
                3, "10.0.0.7", "1/2", "50%", "9.0 / 9 / 9", "  <- 目标"
            ),
            format!("    {:<4} {:<17} {:<8} {:<7} {}", 4, "*", "0/2", "100%", "-"),
        ]
    );
}
