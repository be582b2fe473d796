use zhuge_netdiag::binary64::Binary64;

#[test]
fn percentages_round_as_floating_point_does() {
    for sent in 1u32..=120 {
        for lost in 0..=sent {
            let quotient = lost as f64 / sent as f64 * 100.0;
            let product = lost as f64 * 100.0 / sent as f64;
            let q = Binary64::quotient_percent(lost, sent);
            let p = Binary64::product_percent(lost, sent);
            assert_eq!(q.fixed0(), format!("{:.0}", quotient), "{}/{}", lost, sent);
            assert_eq!(q.fixed1(), format!("{:.1}", quotient), "{}/{}", lost, sent);
            assert_eq!(p.fixed0(), format!("{:.0}", product), "{}/{}", lost, sent);
            assert_eq!(p.fixed1(), format!("{:.1}", product), "{}/{}", lost, sent);
            for k in [0u32, 5, 10, 20, 50, 100] {
                assert_eq!(q.exceeds(k), quotient > k as f64);
                assert_eq!(q.below(k), quotient < k as f64);
                assert_eq!(p.exceeds(k), product > k as f64);
                assert_eq!(p.below(k), product < k as f64);
            }
        }
    }
}

#[test]
fn percentages_of_large_counts_round_as_floating_point_does() {
    for (lost, sent) in [
        (1u32, 4294967295u32),
        (4294967294, 4294967295),
        (4294967295, 4294967295),
        (123456789, 987654321),
        (1, 3),
        (2, 3),
        (1, 7),
        (0, 4294967295),
    ] {
        let q = Binary64::quotient_percent(lost, sent);
        assert_eq!(q.fixed1(), format!("{:.1}", lost as f64 / sent as f64 * 100.0));
        let p = Binary64::product_percent(lost, sent);
        assert_eq!(p.fixed1(), format!("{:.1}", lost as f64 * 100.0 / sent as f64));
    }
}

#[test]
fn the_two_ways_to_a_percentage_differ_in_their_rounding() {
    let lost = 23u32;
    let sent = 40u32;
    assert_eq!(Binary64::quotient_percent(lost, sent).fixed0(), "57");
    assert_eq!(Binary64::product_percent(lost, sent).fixed0(), "58");
}

#[test]
fn a_percentage_lies_between_nothing_and_all() {
    assert_eq!(Binary64::quotient_percent(0, 9).fixed1(), "0.0");
    assert_eq!(Binary64::quotient_percent(9, 9).fixed1(), "100.0");
    assert_eq!(Binary64::product_percent(9, 9).fixed1(), "100.0");
    assert!(!Binary64::quotient_percent(9, 9).exceeds(100));
    assert!(Binary64::quotient_percent(4294967294, 4294967295).below(100));
    assert!(Binary64::product_percent(1, 4294967295).exceeds(0));
}

#[test]
fn averages_round_as_floating_point_does() {
    let lists: Vec<Vec<u32>> = vec![
        vec![1],
        vec![1, 2],
        vec![1, 1, 2],
        vec![10, 11, 12, 14],
        vec![4294967295, 4294967295, 4294967294],
        vec![0, 0, 1],
        vec![3, 5, 8, 13, 21, 34, 55],
    ];
    for list in lists {
        let mut sum = Binary64::zero();
        for x in &list {
            sum = sum.plus(Binary64::from_integer(*x as u64));
        }
        let ours = sum.over(list.len() as u32);
        let theirs = list.iter().map(|x| *x as f64).sum::<f64>() / list.len() as f64;
        assert_eq!(ours.fixed0(), format!("{:.0}", theirs));
        assert_eq!(ours.fixed1(), format!("{:.1}", theirs));
    }
}

#[test]
fn running_means_round_as_floating_point_does() {
    let samples: [u64; 12] = [31, 29, 30, 45, 1, 1200, 28, 33, 30, 30, 999, 7];
    let mut ours = Binary64::zero();
    let mut theirs = 0.0f64;
    for (i, ms) in samples.iter().enumerate() {
        let n = i as u32 + 1;
        ours = ours.mean_after(n, *ms);
        theirs = theirs * (n as f64 - 1.0) / n as f64 + *ms as f64 / n as f64;
        assert_eq!(ours.fixed0(), format!("{:.0}", theirs));
        assert_eq!(ours.fixed1(), format!("{:.1}", theirs));
    }
}

#[test]
fn halves_go_to_the_even_number() {
    let half = Binary64::from_integer(1).over(2);
    assert_eq!(half.fixed0(), format!("{:.0}", 0.5));
    let three_halves = Binary64::from_integer(3).over(2);
    assert_eq!(three_halves.fixed0(), format!("{:.0}", 1.5));
    let five_halves = Binary64::from_integer(5).over(2);
    assert_eq!(five_halves.fixed0(), format!("{:.0}", 2.5));
    let quarter = Binary64::from_integer(1).over(4);
    assert_eq!(quarter.fixed1(), format!("{:.1}", 0.25));
    let three_quarters = Binary64::from_integer(3).over(4);
    assert_eq!(three_quarters.fixed1(), format!("{:.1}", 0.75));
}

#[test]
fn sharp_rises_are_found_as_floating_point_finds_them() {
    for from in 0u64..120 {
        for to in 0u64..240 {
            let ours = Binary64::from_integer(from).rises_to(Binary64::from_integer(to));
            let (p, h) = (from as f64, to as f64);
            assert_eq!(ours, h - p > 30.0 && h > p * 1.8, "{} {}", from, to);
        }
    }
    assert!(!Binary64::from_integer(50).rises_to(Binary64::from_integer(90)));
    assert!(Binary64::from_integer(50).rises_to(Binary64::from_integer(91)));
}
