//! The command line.

use crate::report::VERSION;
use crate::runner;
use crate::runner::{Event, RunOpts, DEFAULT_TARGET};
use crate::text;
use vstd::prelude::*;

verus! {

/// What the arguments ask for.
#[derive(Clone, Debug)]
pub struct CliOpts {
    pub run: RunOpts,
    /// Where to save the report.
    pub report_path: Option<String>,
}

/// What to do: show the help, or run a diagnosis.
#[derive(Clone, Debug)]
pub enum Command {
    Help,
    Run(CliOpts),
}

/// What the arguments ask for, its strings as sequences.
pub ghost struct Settings {
    pub target: Seq<char>,
    pub count: nat,
    pub timeout_ms: nat,
    pub max_hops: nat,
    pub quality_count: nat,
    pub report_path: Option<Seq<char>>,
}

/// What the arguments come to.
pub ghost enum Reading {
    Help,
    Run(Settings),
    Wrong(Seq<char>),
}

impl CliOpts {
    /// What the arguments ask for, its strings as sequences.
    pub open spec fn view(&self) -> Settings {
        Settings {
            target: self.run.target@,
            count: self.run.count as nat,
            timeout_ms: self.run.timeout_ms as nat,
            max_hops: self.run.max_hops as nat,
            quality_count: self.run.quality_count as nat,
            report_path: text::optional(self.report_path),
        }
    }
}

/// What is asked for without arguments.
pub open spec fn defaults() -> Settings {
    Settings {
        target: DEFAULT_TARGET@,
        count: 8,
        timeout_ms: 1500,
        max_hops: 30,
        quality_count: 20,
        report_path: None,
    }
}

/// The largest value of an argument that is a number; `None` for the others.
pub open spec fn number_limit(name: Seq<char>) -> Option<nat> {
    if name == "--samples"@ || name == "--count"@ || name == "--timeout"@ {
        Some(u32::MAX as nat)
    } else if name == "--hops"@ {
        Some(u8::MAX as nat)
    } else {
        None
    }
}

/// The settings with one of their numbers replaced.
pub open spec fn with_number(s: Settings, name: Seq<char>, n: nat) -> Settings {
    if name == "--samples"@ {
        Settings { quality_count: n, ..s }
    } else if name == "--count"@ {
        Settings { count: n, ..s }
    } else if name == "--timeout"@ {
        Settings { timeout_ms: n, ..s }
    } else {
        Settings { max_hops: n, ..s }
    }
}

/// The settings, where their numbers are in range.
pub open spec fn checked(s: Settings) -> Reading {
    if s.count == 0 || s.count > 64 {
        Reading::Wrong("--count 必须在 1..=64 范围内"@)
    } else if s.quality_count == 0 || s.quality_count > 1000 {
        Reading::Wrong("--samples 必须在 1..=1000 范围内"@)
    } else if s.timeout_ms < 100 {
        Reading::Wrong("--timeout 不能小于 100ms"@)
    } else {
        Reading::Run(s)
    }
}

/// What the arguments from `i` on come to, after those before have given `s`.
pub open spec fn reading(args: Seq<Seq<char>>, i: int, s: Settings) -> Reading
    decreases args.len() - i,
{
    if i < 0 || i >= args.len() {
        checked(s)
    } else {
        let name = args[i];
        if name == "-h"@ || name == "--help"@ {
            Reading::Help
        } else if name == "--quick"@ {
            reading(args, i + 1, Settings { count: 4, timeout_ms: 1000, quality_count: 4, ..s })
        } else if name != "--target"@ && name != "--report"@ && number_limit(name) is None {
            Reading::Wrong("未知参数: "@ + name + "（使用 --help 查看用法）"@)
        } else if i + 1 >= args.len() {
            Reading::Wrong(name + " 需要一个参数"@)
        } else if name == "--target"@ {
            reading(args, i + 2, Settings { target: args[i + 1], ..s })
        } else if name == "--report"@ {
            reading(args, i + 2, Settings { report_path: Some(args[i + 1]), ..s })
        } else {
            match text::unsigned(args[i + 1], number_limit(name)->0) {
                Some(n) => reading(args, i + 2, with_number(s, name, n)),
                None => Reading::Wrong(name + " 必须是数字"@),
            }
        }
    }
}

/// The result says what the arguments come to.
pub open spec fn agrees(r: Result<Command, String>, reading: Reading) -> bool {
    match r {
        Ok(Command::Help) => reading == Reading::Help,
        Ok(Command::Run(c)) => reading == Reading::Run(c@),
        Err(e) => reading == Reading::Wrong(e@),
    }
}

fn check(cli: CliOpts) -> (r: Result<Command, String>)
    ensures
        agrees(r, checked(cli@)),
{
    if cli.run.count == 0 || cli.run.count > 64 {
        return Err("--count 必须在 1..=64 范围内".to_string());
    }
    if cli.run.quality_count == 0 || cli.run.quality_count > 1000 {
        return Err("--samples 必须在 1..=1000 范围内".to_string());
    }
    if cli.run.timeout_ms < 100 {
        return Err("--timeout 不能小于 100ms".to_string());
    }
    Ok(Command::Run(cli))
}

/// Sets the number that the argument `name` stands for; `false` where `value` is
/// no such number.
fn set_number(cli: &mut CliOpts, name: &str, value: &str) -> (ok: bool)
    requires
        number_limit(name@) is Some,
    ensures
        match text::unsigned(value@, number_limit(name@)->0) {
            Some(n) => ok && final(cli)@ == with_number(old(cli)@, name@, n),
            None => !ok && final(cli)@ == old(cli)@,
        },
{
    let hops = text::same(name, "--hops");
    let max: u64 = if hops {
        u8::MAX as u64
    } else {
        u32::MAX as u64
    };
    proof {
        reveal_strlit("--hops");
        reveal_strlit("--samples");
        reveal_strlit("--count");
        reveal_strlit("--timeout");
        assert("--hops"@.len() != "--samples"@.len());
        assert("--hops"@.len() != "--count"@.len());
        assert("--hops"@.len() != "--timeout"@.len());
    }
    match text::parse_unsigned(value, max) {
        None => false,
        Some(n) => {
            if text::same(name, "--samples") {
                cli.run.quality_count = n as u32;
            } else if text::same(name, "--count") {
                cli.run.count = n as u32;
            } else if text::same(name, "--timeout") {
                cli.run.timeout_ms = n as u32;
            } else {
                cli.run.max_hops = n as u8;
            }
            true
        },
    }
}

fn takes_number(name: &str) -> (r: bool)
    ensures
        r == number_limit(name@) is Some,
{
    text::same(name, "--samples") || text::same(name, "--count") || text::same(name, "--timeout")
        || text::same(name, "--hops")
}

/// Reads the arguments, without the name of the program.
pub fn parse_args(args: &Vec<String>) -> (r: Result<Command, String>)
    ensures
        agrees(r, reading(text::contents(args@), 0, defaults())),
{
    let ghost all = text::contents(args@);
    let mut cli = CliOpts { run: RunOpts::default(), report_path: None };
    let mut i: usize = 0;
    while i < args.len()
        invariant
            i <= args@.len(),
            all == text::contents(args@),
            reading(all, i as int, cli@) == reading(all, 0, defaults()),
        decreases args.len() - i,
    {
        let name = args[i].as_str();
        assert(all[i as int] == name@);
        if text::same(name, "-h") || text::same(name, "--help") {
            return Ok(Command::Help);
        }
        if text::same(name, "--quick") {
            cli.run.count = 4;
            cli.run.timeout_ms = 1000;
            cli.run.quality_count = 4;
            i = i + 1;
            continue ;
        }
        let is_target = text::same(name, "--target");
        let is_report = text::same(name, "--report");
        let is_number = takes_number(name);
        if !is_target && !is_report && !is_number {
            let mut t = "未知参数: ".to_string();
            t.append(name);
            t.append("（使用 --help 查看用法）");
            return Err(t);
        }
        if i + 1 >= args.len() {
            let mut t = name.to_string();
            t.append(" 需要一个参数");
            return Err(t);
        }
        assert(all[i + 1] == args@[i + 1]@);
        if is_target {
            cli.run.target = args[i + 1].clone();
        } else if is_report {
            cli.report_path = Some(args[i + 1].clone());
        } else {
            if !set_number(&mut cli, name, args[i + 1].as_str()) {
                let mut t = name.to_string();
                t.append(" 必须是数字");
                return Err(t);
            }
        }
        i = i + 2;
    }
    check(cli)
}

/// The help.
pub open spec fn help_text() -> Seq<char> {
    "诸葛网络问题诊断器 v"@ + VERSION@
        + " —— 开源网络链路诊断工具（MIT 协议）\n\n用法:\n  zhuge-netdiag [选项]\n\n选项:\n  --target <IP或域名>   诊断目标（默认 "@
        + DEFAULT_TARGET@
        + "）\n  --count <N>           每跳探测次数（默认 8，范围 1..=64）\n  --samples <N>         质量采样次数（默认 20，范围 1..=1000，可加大以捕捉间歇性丢包）\n  --timeout <毫秒>      单次探测超时（默认 1500）\n  --hops <N>            最大跳数（默认 30）\n  --report <路径>       报告保存路径（默认自动命名）\n  --quick               快速模式（探测次数减半、超时缩短）\n  -h, --help            显示本帮助\n\n示例:\n  zhuge-netdiag\n  zhuge-netdiag --target www.baidu.com --count 10\n  zhuge-netdiag --samples 100\n  zhuge-netdiag --quick --report C:\\temp\\report.md\n"@
}

/// Writes the help.
pub fn help() -> (t: String)
    ensures
        t@ == help_text(),
{
    let mut t = "诸葛网络问题诊断器 v".to_string();
    t.append(VERSION);
    t.append(
        " —— 开源网络链路诊断工具（MIT 协议）\n\n用法:\n  zhuge-netdiag [选项]\n\n选项:\n  --target <IP或域名>   诊断目标（默认 ",
    );
    t.append(DEFAULT_TARGET);
    t.append(
        "）\n  --count <N>           每跳探测次数（默认 8，范围 1..=64）\n  --samples <N>         质量采样次数（默认 20，范围 1..=1000，可加大以捕捉间歇性丢包）\n  --timeout <毫秒>      单次探测超时（默认 1500）\n  --hops <N>            最大跳数（默认 30）\n  --report <路径>       报告保存路径（默认自动命名）\n  --quick               快速模式（探测次数减半、超时缩短）\n  -h, --help            显示本帮助\n\n示例:\n  zhuge-netdiag\n  zhuge-netdiag --target www.baidu.com --count 10\n  zhuge-netdiag --samples 100\n  zhuge-netdiag --quick --report C:\\temp\\report.md\n",
    );
    t
}

/// The banner.
pub open spec fn banner_text() -> Seq<char> {
    "==============================================================\n     诸葛网络问题诊断器  v"@ + VERSION@
        + "\n     开源网络诊断工具（MIT 协议）· 仅使用公开标准协议\n=============================================================="@
}

/// Writes the banner.
pub fn banner() -> (t: String)
    ensures
        t@ == banner_text(),
{
    let mut t =
        "==============================================================\n     诸葛网络问题诊断器  v".to_string();
    t.append(VERSION);
    t.append(
        "\n     开源网络诊断工具（MIT 协议）· 仅使用公开标准协议\n==============================================================",
    );
    t
}

/// An event as a line on the console.
pub open spec fn event_text(e: runner::Told) -> Seq<char> {
    match e {
        runner::Told::Step(n, total, title) => "\n["@ + text::dec(n) + "/"@ + text::dec(total)
            + "] "@ + title + " ..."@,
        runner::Told::Log(line) => "    "@ + line,
    }
}

/// Writes an event as a line on the console.
pub fn event_line(e: &Event) -> (t: String)
    ensures
        t@ == event_text(e@),
{
    match e {
        Event::Step { n, total, title } => {
            let mut t = "\n[".to_string();
            t.append(text::decimal(*n as u128).as_str());
            t.append("/");
            t.append(text::decimal(*total as u128).as_str());
            t.append("] ");
            t.append(title.as_str());
            t.append(" ...");
            t
        },
        Event::Log(line) => {
            let mut t = "    ".to_string();
            t.append(line.as_str());
            t
        },
    }
}

/// Tells how the saving of the report at `path` went.
pub fn saved_line(path: &str, failure: Option<String>) -> (t: String)
    ensures
        t@ == match failure {
            None => "\n诊断报告已保存: "@ + path@,
            Some(e) => "\n报告保存失败（"@ + path@ + "）: "@ + e@,
        },
{
    match failure {
        None => {
            let mut t = "\n诊断报告已保存: ".to_string();
            t.append(path);
            t
        },
        Some(e) => {
            let mut t = "\n报告保存失败（".to_string();
            t.append(path);
            t.append("）: ");
            t.append(e.as_str());
            t
        },
    }
}

// ---- laws ----

/// Numbers in the range that a diagnosis is run with.
pub open spec fn in_range(s: Settings) -> bool {
    &&& 1 <= s.count <= 64
    &&& 1 <= s.quality_count <= 1000
    &&& 100 <= s.timeout_ms
}

/// Whatever the arguments, a diagnosis is only run with numbers in range, and the
/// numbers fit where they are kept.
pub proof fn law_settings_in_range(args: Seq<Seq<char>>, i: int, s: Settings)
    requires
        s.count <= u32::MAX,
        s.quality_count <= u32::MAX,
        s.timeout_ms <= u32::MAX,
        s.max_hops <= u8::MAX,
    ensures
        reading(args, i, s) matches Reading::Run(r) ==> in_range(r) && r.timeout_ms <= u32::MAX
            && r.max_hops <= u8::MAX,
    decreases args.len() - i,
{
    if 0 <= i < args.len() {
        let name = args[i];
        if name == "-h"@ || name == "--help"@ {
        } else if name == "--quick"@ {
            law_settings_in_range(
                args,
                i + 1,
                Settings { count: 4, timeout_ms: 1000, quality_count: 4, ..s },
            );
        } else if i + 1 < args.len() {
            let value = args[i + 1];
            if name == "--target"@ {
                law_settings_in_range(args, i + 2, Settings { target: value, ..s });
            } else if name == "--report"@ {
                law_settings_in_range(args, i + 2, Settings { report_path: Some(value), ..s });
            } else if number_limit(name) is Some {
                if let Some(n) = text::unsigned(value, number_limit(name)->0) {
                    reveal_strlit("--hops");
                    reveal_strlit("--samples");
                    reveal_strlit("--count");
                    reveal_strlit("--timeout");
                    assert("--hops"@.len() != "--samples"@.len());
                    assert("--hops"@.len() != "--count"@.len());
                    assert("--hops"@.len() != "--timeout"@.len());
                    law_settings_in_range(args, i + 2, with_number(s, name, n));
                }
            }
        }
    }
}

proof fn lemma_names_differ()
    ensures
        "-h"@.len() == 2,
        "--help"@.len() == 6 && "--hops"@.len() == 6 && "--help"@ != "--hops"@,
        "--quick"@.len() == 7 && "--count"@.len() == 7 && "--quick"@ != "--count"@,
        "--target"@.len() == 8 && "--report"@.len() == 8 && "--target"@ != "--report"@,
        "--samples"@.len() == 9 && "--timeout"@.len() == 9 && "--samples"@ != "--timeout"@,
{
    reveal_strlit("-h");
    reveal_strlit("--help");
    reveal_strlit("--hops");
    reveal_strlit("--quick");
    reveal_strlit("--count");
    reveal_strlit("--target");
    reveal_strlit("--report");
    reveal_strlit("--samples");
    reveal_strlit("--timeout");
    assert("--help"@[3] != "--hops"@[3]);
    assert("--quick"@[2] != "--count"@[2]);
    assert("--target"@[2] != "--report"@[2]);
    assert("--samples"@[2] != "--timeout"@[2]);
}

/// Each argument sets what it stands for and nothing else, and the others are read on
/// from there: a target or a path as it is written, a number where the value is one
/// that fits. Where the value is no number, or is missing, or the argument is unknown,
/// that is said with its name. Help asked for is shown, whatever follows.
pub proof fn law_argument_sets_its_own(args: Seq<Seq<char>>, i: int, s: Settings, n: nat)
    requires
        0 <= i < args.len(),
    ensures
        args[i] == "-h"@ || args[i] == "--help"@ ==> reading(args, i, s) == Reading::Help,
        args[i] == "--quick"@ ==> reading(args, i, s) == reading(
            args,
            i + 1,
            Settings { count: 4, timeout_ms: 1000, quality_count: 4, ..s },
        ),
        i + 1 < args.len() && args[i] == "--target"@ ==> reading(args, i, s) == reading(
            args,
            i + 2,
            Settings { target: args[i + 1], ..s },
        ),
        i + 1 < args.len() && args[i] == "--report"@ ==> reading(args, i, s) == reading(
            args,
            i + 2,
            Settings { report_path: Some(args[i + 1]), ..s },
        ),
        i + 1 < args.len() && args[i] == "--count"@ && args[i + 1] == text::dec(n) && n
            <= 0xffff_ffff ==> reading(args, i, s) == reading(
            args,
            i + 2,
            Settings { count: n, ..s },
        ),
        i + 1 < args.len() && args[i] == "--samples"@ && args[i + 1] == text::dec(n) && n
            <= 0xffff_ffff ==> reading(args, i, s) == reading(
            args,
            i + 2,
            Settings { quality_count: n, ..s },
        ),
        i + 1 < args.len() && args[i] == "--timeout"@ && args[i + 1] == text::dec(n) && n
            <= 0xffff_ffff ==> reading(args, i, s) == reading(
            args,
            i + 2,
            Settings { timeout_ms: n, ..s },
        ),
        i + 1 < args.len() && args[i] == "--hops"@ && args[i + 1] == text::dec(n) && n <= 255
            ==> reading(args, i, s) == reading(args, i + 2, Settings { max_hops: n, ..s }),
        i + 1 < args.len() && (args[i] == "--count"@ || args[i] == "--samples"@ || args[i]
            == "--timeout"@ || args[i] == "--hops"@) && (exists|k: int|
            0 <= k < args[i + 1].len() && (#[trigger] args[i + 1][k]) != '+' && !('0'
                <= args[i + 1][k] <= '9')) ==> reading(args, i, s) == Reading::Wrong(
            args[i] + " 必须是数字"@,
        ),
        i + 1 < args.len() && args[i] == "--hops"@ && args[i + 1] == text::dec(n) && n > 255
            ==> reading(args, i, s) == Reading::Wrong(args[i] + " 必须是数字"@),
        i + 1 == args.len() && (args[i] == "--count"@ || args[i] == "--samples"@ || args[i]
            == "--timeout"@ || args[i] == "--hops"@ || args[i] == "--target"@ || args[i]
            == "--report"@) ==> reading(args, i, s) == Reading::Wrong(args[i] + " 需要一个参数"@),
        args[i] != "-h"@ && args[i] != "--help"@ && args[i] != "--quick"@ && args[i] != "--target"@
            && args[i] != "--report"@ && args[i] != "--count"@ && args[i] != "--samples"@ && args[i]
            != "--timeout"@ && args[i] != "--hops"@ ==> reading(args, i, s) == Reading::Wrong(
            "未知参数: "@ + args[i] + "（使用 --help 查看用法）"@,
        ),
{
    lemma_names_differ();
    text::law_numeral_read(n, 0xffff_ffff, args[i]);
    text::law_numeral_read(n, 255, args[i]);
    if i + 1 < args.len() {
        let v = args[i + 1];
        if exists|k: int|
            0 <= k < v.len() && (#[trigger] v[k]) != '+' && !('0' <= v[k] <= '9') {
            let k = choose|k: int|
                0 <= k < v.len() && (#[trigger] v[k]) != '+' && !('0' <= v[k] <= '9');
            text::law_numeral_read(n, 0xffff_ffff, v);
            text::law_numeral_read(n, 255, v);
            if k > 0 {
                assert(!('0' <= v[k] <= '9'));
            }
            assert(text::unsigned(v, 0xffff_ffff) is None);
            assert(text::unsigned(v, 255) is None);
        }
    }
}

/// When all arguments are read, a diagnosis is run with exactly what they set, where the
/// numbers are in range: 1 to 64 probes, 1 to 1000 samples, and at least 100 ms. Else
/// the first number that is not is named.
pub proof fn law_settings_are_checked(args: Seq<Seq<char>>, s: Settings)
    ensures
        ({
            let r = reading(args, args.len() as int, s);
            &&& r == Reading::Run(s) <==> 1 <= s.count <= 64 && 1 <= s.quality_count <= 1000
                && s.timeout_ms >= 100
            &&& r is Run ==> r == Reading::Run(s)
            &&& !(r is Help)
            &&& s.count < 1 || s.count > 64 ==> r == Reading::Wrong("--count 必须在 1..=64 范围内"@)
            &&& 1 <= s.count <= 64 && (s.quality_count < 1 || s.quality_count > 1000) ==> r
                == Reading::Wrong("--samples 必须在 1..=1000 范围内"@)
            &&& 1 <= s.count <= 64 && 1 <= s.quality_count <= 1000 && s.timeout_ms < 100 ==> r
                == Reading::Wrong("--timeout 不能小于 100ms"@)
        }),
{
}

/// Without arguments a diagnosis is run with the defaults: the target 223.5.5.5, 8
/// probes, 1500 ms, 30 hops, 20 samples and no path for the report.
pub proof fn law_nothing_asked_for(args: &Vec<String>, r: Result<Command, String>)
    requires
        call_ensures(parse_args, (args,), r),
        args@.len() == 0,
    ensures
        r matches Ok(Command::Run(c)) && {
            &&& c.run.target@ == "223.5.5.5"@
            &&& c.run.count == 8
            &&& c.run.timeout_ms == 1500
            &&& c.run.max_hops == 30
            &&& c.run.quality_count == 20
            &&& c.report_path is None
        },
{
    assert(text::contents(args@).len() == 0);
    let c = r->Ok_0->Run_0;
    assert(reading(text::contents(args@), 0, defaults()) == Reading::Run(defaults()));
    assert(c@ == defaults());
}

/// What the arguments come to is what they are read as, from the first one on and
/// starting with the defaults: a diagnosis with these settings, the help, or what is
/// wrong with them.
pub proof fn law_arguments_are_followed(args: &Vec<String>, r: Result<Command, String>)
    requires
        call_ensures(parse_args, (args,), r),
    ensures
        ({
            let d = Settings {
                target: "223.5.5.5"@,
                count: 8,
                timeout_ms: 1500,
                max_hops: 30,
                quality_count: 20,
                report_path: None,
            };
            match reading(args@.map_values(|t: String| t@), 0, d) {
                Reading::Help => r == Ok::<Command, String>(Command::Help),
                Reading::Wrong(t) => r is Err && r->Err_0@ == t,
                Reading::Run(s) => r matches Ok(Command::Run(c)) && {
                    &&& c.run.target@ == s.target
                    &&& c.run.count == s.count
                    &&& c.run.timeout_ms == s.timeout_ms
                    &&& c.run.max_hops == s.max_hops
                    &&& c.run.quality_count == s.quality_count
                    &&& match c.report_path {
                        Some(t) => s.report_path == Some(t@),
                        None => s.report_path is None,
                    }
                },
            }
        }),
{
    if r is Ok && r->Ok_0 is Run {
        let c = r->Ok_0->Run_0;
        assert(c@.target == c.run.target@);
        assert(c@.count == c.run.count as nat);
        assert(c@.report_path == text::optional(c.report_path));
    }
}

/// An event is a line on the console: a step with its number of how many and its title,
/// anything else indented.
pub proof fn law_event_on_the_console(n: nat, total: nat, words: Seq<char>)
    ensures
        event_text(runner::Told::Step(n, total, words)) == "\n["@ + text::dec(n) + "/"@ + text::dec(
            total,
        ) + "] "@ + words + " ..."@,
        event_text(runner::Told::Log(words)).len() == words.len() + 4,
        event_text(runner::Told::Log(words)).skip(4) == words,
{
    reveal_strlit("    ");
    assert(("    "@ + words).skip(4) =~= words);
}

/// The help names the version and the default target.
pub proof fn law_help_names_the_defaults()
    ensures
        text::holds(help_text(), "0.1.0"@),
        text::holds(help_text(), "223.5.5.5"@),
        text::holds(banner_text(), "0.1.0"@),
{
    let a = "诸葛网络问题诊断器 v"@;
    let b =
        " —— 开源网络链路诊断工具（MIT 协议）\n\n用法:\n  zhuge-netdiag [选项]\n\n选项:\n  --target <IP或域名>   诊断目标（默认 "@;
    let head = a + VERSION@ + b;
    let rest = help_text().skip((head + DEFAULT_TARGET@).len() as int);
    text::lemma_holds_itself(VERSION@);
    text::lemma_holds_itself(DEFAULT_TARGET@);
    text::lemma_holds_concat(a, VERSION@, VERSION@);
    text::lemma_holds_concat(a + VERSION@, b, VERSION@);
    text::lemma_holds_concat(head, DEFAULT_TARGET@, VERSION@);
    text::lemma_holds_concat(head, DEFAULT_TARGET@, DEFAULT_TARGET@);
    text::lemma_holds_concat(head + DEFAULT_TARGET@, rest, VERSION@);
    text::lemma_holds_concat(head + DEFAULT_TARGET@, rest, DEFAULT_TARGET@);
    assert(head + DEFAULT_TARGET@ + rest =~= help_text());
    let c = "==============================================================\n     诸葛网络问题诊断器  v"@;
    let d = banner_text().skip((c + VERSION@).len() as int);
    text::lemma_holds_concat(c, VERSION@, VERSION@);
    text::lemma_holds_concat(c + VERSION@, d, VERSION@);
    assert(c + VERSION@ + d =~= banner_text());
}

} // verus!
