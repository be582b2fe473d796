use zhuge_netdiag::diagnose::Level;
use zhuge_netdiag::gui::{colour, title, Form, Pane, Screen};
use zhuge_netdiag::report::{render, Session, VERSION};
use zhuge_netdiag::runner::Event;

fn form(target: &str, count: u32, timeout_ms: u32, max_hops: u8, quality_count: u32) -> Form {
    Form { target: target.to_string(), count, timeout_ms, max_hops, quality_count }
}

#[test]
fn the_form_starts_with_the_defaults() {
    let mut f = Form::default();
    let o = f.submit();
    assert_eq!(o.target, "223.5.5.5");
    assert_eq!((o.count, o.timeout_ms, o.max_hops, o.quality_count), (8, 1500, 30, 20));
    assert_eq!((f.count, f.timeout_ms, f.max_hops, f.quality_count), (8, 1500, 30, 20));
}

#[test]
fn numbers_are_brought_into_range() {
    let mut f = form(" www.x.com\t", 0, 99, 0, 0);
    let o = f.submit();
    assert_eq!(o.target, "www.x.com");
    assert_eq!(f.target, " www.x.com\t");
    assert_eq!((o.count, o.timeout_ms, o.max_hops, o.quality_count), (1, 1000, 30, 1));
    assert_eq!((f.count, f.timeout_ms, f.max_hops, f.quality_count), (1, 1000, 30, 1));
    let mut f = form("  ", 65, 100, 255, 1001);
    let o = f.submit();
    assert_eq!(o.target, "223.5.5.5");
    assert_eq!((o.count, o.timeout_ms, o.max_hops, o.quality_count), (64, 100, 255, 1000));
    let again = f.submit();
    assert_eq!(
        (again.count, again.timeout_ms, again.max_hops, again.quality_count),
        (64, 100, 255, 1000)
    );
}

#[test]
fn the_window_follows_a_diagnosis() {
    let mut s = Screen::default();
    assert!(s.is_blank());
    assert_eq!(s.view, Pane::Log);
    s.save_path = "old.md".to_string();
    s.begin("1.2.3.4");
    assert!(s.running);
    assert!(!s.is_blank());
    assert_eq!(s.current_step, "准备中");
    assert_eq!(s.status_msg, "正在诊断 1.2.3.4 ...");
    assert_eq!(s.save_path, "old.md");
    s.show(Event::Step { n: 1, total: 7, title: "检测本地网络环境".to_string() });
    s.show(Event::Log("好".to_string()));
    assert_eq!(s.current_step, "[1/7] 检测本地网络环境");
    assert_eq!(s.events, vec!["[1/7] 检测本地网络环境 ...", "    好"]);
    s.finish(Session::default(), "new.md".to_string());
    assert!(!s.running);
    assert_eq!(s.view, Pane::Report);
    assert_eq!(s.status_msg, "诊断完成");
    assert_eq!(s.save_path, "new.md");
    assert_eq!(s.report_text, render(&Session::default()));
    assert!(s.session.is_some());
    s.copied();
    assert_eq!(s.status_msg, "报告已复制到剪贴板");
    s.begin("x");
    assert!(s.events.is_empty());
    assert!(s.session.is_none());
    assert_eq!(s.report_text, "");
}

#[test]
fn the_report_is_saved_where_it_is_asked_for() {
    let mut s = Screen::default();
    assert_eq!(s.path_to_save("auto.md".to_string()), "auto.md");
    s.save_path = "  my.md ".to_string();
    assert_eq!(s.path_to_save("auto.md".to_string()), "my.md");
    s.saved("my.md".to_string(), Some("满".to_string()));
    assert_eq!(s.status_msg, "报告保存失败（my.md）: 满");
    assert_eq!(s.save_path, "  my.md ");
    s.saved("my.md".to_string(), None);
    assert_eq!(s.status_msg, "报告已保存: my.md");
    assert_eq!(s.save_path, "my.md");
}

#[test]
fn levels_have_colours() {
    assert_eq!(colour(Level::Normal), (30, 130, 60));
    assert_eq!(colour(Level::Warn), (200, 140, 0));
    assert_eq!(colour(Level::Error), (200, 40, 40));
}

#[test]
fn the_window_has_a_title() {
    assert_eq!(title(), format!("诸葛网络问题诊断器 v{}（图形界面版）", VERSION));
}
