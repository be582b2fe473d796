use zhuge_netdiag::cli::{banner, event_line, help, parse_args, saved_line, CliOpts, Command};
use zhuge_netdiag::report::VERSION;
use zhuge_netdiag::runner::Event;

fn args(list: &[&str]) -> Vec<String> {
    list.iter().map(|t| t.to_string()).collect()
}

fn opts(list: &[&str]) -> CliOpts {
    match parse_args(&args(list)) {
        Ok(Command::Run(o)) => o,
        other => panic!("{:?}", other),
    }
}

fn error(list: &[&str]) -> String {
    match parse_args(&args(list)) {
        Err(e) => e,
        other => panic!("{:?}", other),
    }
}

#[test]
fn without_arguments_the_defaults_hold() {
    let o = opts(&[]);
    assert_eq!(o.run.target, "223.5.5.5");
    assert_eq!(
        (o.run.count, o.run.timeout_ms, o.run.max_hops, o.run.quality_count),
        (8, 1500, 30, 20)
    );
    assert_eq!(o.report_path, None);
}

#[test]
fn arguments_are_read() {
    let o = opts(&[
        "--target", "www.baidu.com", "--count", "10", "--samples", "100", "--timeout", "2000",
        "--hops", "16", "--report", "C:\\temp\\report.md",
    ]);
    assert_eq!(o.run.target, "www.baidu.com");
    assert_eq!(
        (o.run.count, o.run.timeout_ms, o.run.max_hops, o.run.quality_count),
        (10, 2000, 16, 100)
    );
    assert_eq!(o.report_path, Some("C:\\temp\\report.md".to_string()));
}

#[test]
fn quick_runs_are_shorter() {
    let o = opts(&["--quick"]);
    assert_eq!((o.run.count, o.run.timeout_ms, o.run.quality_count), (4, 1000, 4));
    let o = opts(&["--quick", "--count", "9"]);
    assert_eq!((o.run.count, o.run.quality_count), (9, 4));
    let o = opts(&["--count", "9", "--quick"]);
    assert_eq!(o.run.count, 4);
}

#[test]
fn later_arguments_win() {
    assert_eq!(opts(&["--target", "a", "--target", "--quick"]).run.target, "--quick");
}

#[test]
fn help_is_asked_for() {
    assert!(matches!(parse_args(&args(&["-h"])), Ok(Command::Help)));
    assert!(matches!(parse_args(&args(&["--quick", "--help", "--bad"])), Ok(Command::Help)));
    assert!(matches!(parse_args(&args(&["--count", "0", "-h"])), Ok(Command::Help)));
    assert_eq!(error(&["--bad", "-h"]), "未知参数: --bad（使用 --help 查看用法）");
}

#[test]
fn every_wrong_argument_is_told() {
    assert_eq!(error(&["x"]), "未知参数: x（使用 --help 查看用法）");
    for name in ["--target", "--samples", "--count", "--timeout", "--hops", "--report"] {
        assert_eq!(error(&[name]), format!("{} 需要一个参数", name));
    }
    for name in ["--samples", "--count", "--timeout", "--hops"] {
        assert_eq!(error(&[name, "x"]), format!("{} 必须是数字", name));
        assert_eq!(error(&[name, "-1"]), format!("{} 必须是数字", name));
    }
    assert_eq!(error(&["--hops", "256"]), "--hops 必须是数字");
    assert_eq!(error(&["--count", "4294967296"]), "--count 必须是数字");
}

#[test]
fn numbers_out_of_range_are_told() {
    for n in ["0", "65", "4294967295"] {
        assert_eq!(error(&["--count", n]), "--count 必须在 1..=64 范围内");
    }
    for n in ["0", "1001"] {
        assert_eq!(error(&["--samples", n]), "--samples 必须在 1..=1000 范围内");
    }
    assert_eq!(error(&["--timeout", "99"]), "--timeout 不能小于 100ms");
    assert_eq!(opts(&["--count", "64", "--samples", "1000", "--timeout", "100"]).run.count, 64);
    assert_eq!(opts(&["--count", "+1", "--hops", "0"]).run.max_hops, 0);
    assert_eq!(error(&["--count", "0", "--samples", "0"]), "--count 必须在 1..=64 范围内");
}

#[test]
fn the_help_names_every_argument() {
    let t = help();
    for name in
        ["--target", "--count", "--samples", "--timeout", "--hops", "--report", "--quick", "--help"]
    {
        assert!(t.contains(name));
    }
    assert!(t.starts_with(format!("诸葛网络问题诊断器 v{} —— ", VERSION).as_str()));
    assert!(t.contains("诊断目标（默认 223.5.5.5）\n"));
    assert!(t.ends_with("  zhuge-netdiag --quick --report C:\\temp\\report.md\n"));
}

#[test]
fn the_banner_is_framed() {
    let bar = "=".repeat(62);
    assert_eq!(
        banner(),
        format!(
            "{}\n     诸葛网络问题诊断器  v{}\n     开源网络诊断工具（MIT 协议）· 仅使用公开标准协议\n{}",
            bar, VERSION, bar
        )
    );
}

#[test]
fn events_are_lines() {
    let step = Event::Step { n: 2, total: 7, title: "检查网关连通性".to_string() };
    assert_eq!(event_line(&step), "\n[2/7] 检查网关连通性 ...");
    assert_eq!(event_line(&Event::Log("好".to_string())), "    好");
}

#[test]
fn the_saving_is_told() {
    assert_eq!(saved_line("a.md", None), "\n诊断报告已保存: a.md");
    assert_eq!(saved_line("a.md", Some("满".to_string())), "\n报告保存失败（a.md）: 满");
}
