//! The window: what it asks for and what it shows. How it is drawn is not known
//! here.

use crate::cli;
use crate::diagnose::Level;
use crate::report;
use crate::report::{render, Session, VERSION};
use crate::runner;
use crate::runner::{Event, RunOpts, DEFAULT_TARGET};
use crate::text;
use vstd::prelude::*;

verus! {

/// What is asked for in the window.
#[derive(Clone, Debug)]
pub struct Form {
    pub target: String,
    pub count: u32,
    pub timeout_ms: u32,
    pub max_hops: u8,
    pub quality_count: u32,
}

/// What is asked for, its strings as sequences.
pub ghost struct Wish {
    pub target: Seq<char>,
    pub count: nat,
    pub timeout_ms: nat,
    pub max_hops: nat,
    pub quality_count: nat,
}

impl Form {
    /// What is asked for, its strings as sequences.
    pub open spec fn view(&self) -> Wish {
        Wish {
            target: self.target@,
            count: self.count as nat,
            timeout_ms: self.timeout_ms as nat,
            max_hops: self.max_hops as nat,
            quality_count: self.quality_count as nat,
        }
    }
}

/// `n`, or the nearest end of the range where it lies outside.
pub open spec fn within(n: nat, least: nat, most: nat) -> nat {
    if n < least {
        least
    } else if n > most {
        most
    } else {
        n
    }
}

/// What is asked for, its numbers brought into range.
pub open spec fn tightened(w: Wish) -> Wish {
    Wish {
        target: w.target,
        count: within(w.count, 1, 64),
        quality_count: within(w.quality_count, 1, 1000),
        timeout_ms: if w.timeout_ms < 100 {
            1000
        } else {
            w.timeout_ms
        },
        max_hops: if w.max_hops == 0 {
            30
        } else {
            w.max_hops
        },
    }
}

/// The target without white space around it; the default one where nothing is left.
pub open spec fn meant_target(t: Seq<char>) -> Seq<char> {
    if text::trimmed(t).len() == 0 {
        DEFAULT_TARGET@
    } else {
        text::trimmed(t)
    }
}

/// What a diagnosis is run with.
pub open spec fn meant(w: Wish) -> Wish {
    Wish { target: meant_target(w.target), ..tightened(w) }
}

/// The options as a wish.
pub open spec fn wish_of(o: RunOpts) -> Wish {
    Wish {
        target: o.target@,
        count: o.count as nat,
        timeout_ms: o.timeout_ms as nat,
        max_hops: o.max_hops as nat,
        quality_count: o.quality_count as nat,
    }
}

impl Default for Form {
    fn default() -> (f: Self)
        ensures
            f@ == (Wish {
                target: DEFAULT_TARGET@,
                count: 8,
                timeout_ms: 1500,
                max_hops: 30,
                quality_count: 20,
            }),
    {
        Form {
            target: DEFAULT_TARGET.to_string(),
            count: 8,
            timeout_ms: 1500,
            max_hops: 30,
            quality_count: 20,
        }
    }
}

fn clamp(n: u32, least: u32, most: u32) -> (r: u32)
    ensures
        r == within(n as nat, least as nat, most as nat),
{
    if n < least {
        least
    } else if n > most {
        most
    } else {
        n
    }
}

impl Form {
    /// Brings the numbers into range and says what a diagnosis is to be run with.
    pub fn submit(&mut self) -> (o: RunOpts)
        ensures
            final(self)@ == tightened(old(self)@),
            wish_of(o) == meant(old(self)@),
    {
        self.count = clamp(self.count, 1, 64);
        self.quality_count = clamp(self.quality_count, 1, 1000);
        if self.timeout_ms < 100 {
            self.timeout_ms = 1000;
        }
        if self.max_hops == 0 {
            self.max_hops = 30;
        }
        let trimmed = text::trim(self.target.as_str());
        let target = if trimmed.as_str().is_empty() {
            DEFAULT_TARGET.to_string()
        } else {
            trimmed
        };
        RunOpts {
            target,
            count: self.count,
            timeout_ms: self.timeout_ms,
            max_hops: self.max_hops,
            quality_count: self.quality_count,
        }
    }
}

/// What the window shows: the course of the diagnosis, or its report.
#[derive(Clone, Copy, Debug, PartialEq, Eq, Structural)]
pub enum Pane {
    Log,
    Report,
}

/// What stands in the window.
pub struct Screen {
    pub running: bool,
    pub current_step: String,
    pub events: Vec<String>,
    pub session: Option<Session>,
    pub report_text: String,
    pub view: Pane,
    pub save_path: String,
    pub status_msg: String,
}

impl Default for Screen {
    /// An idle window.
    fn default() -> (s: Self)
        ensures
            !s.running,
            s.current_step@ == Seq::<char>::empty(),
            s.events@.len() == 0,
            s.session is None,
            s.report_text@ == Seq::<char>::empty(),
            s.view == Pane::Log,
            s.save_path@ == Seq::<char>::empty(),
            s.status_msg@ == Seq::<char>::empty(),
    {
        Screen {
            running: false,
            current_step: String::new(),
            events: Vec::new(),
            session: None,
            report_text: String::new(),
            view: Pane::Log,
            save_path: String::new(),
            status_msg: String::new(),
        }
    }
}

/// A step as it is shown.
pub open spec fn step_text(n: nat, total: nat, title: Seq<char>) -> Seq<char> {
    "["@ + text::dec(n) + "/"@ + text::dec(total) + "] "@ + title
}

/// A window that is cleared for a diagnosis of `target`.
pub open spec fn begun(b: Screen, target: Seq<char>) -> bool {
    &&& b.running && b.view == Pane::Log
    &&& b.events@.len() == 0 && b.session is None && b.report_text@.len() == 0
    &&& text::holds(b.status_msg@, target)
}

/// An event is shown: its line stands behind those before it, and a step is the present
/// one from then on.
pub open spec fn shows(a: Screen, e: runner::Told, b: Screen) -> bool {
    &&& b.events@.len() == a.events@.len() + 1
    &&& forall|i: int| 0 <= i < a.events@.len() ==> (#[trigger] b.events@[i])@ == a.events@[i]@
    &&& match e {
        runner::Told::Step(n, total, title) => {
            let t = "["@ + text::dec(n) + "/"@ + text::dec(total) + "] "@ + title;
            b.current_step@ == t && b.events@.last()@ == t + " ..."@
        },
        runner::Told::Log(line) => b.current_step@ == a.current_step@ && b.events@.last()@
            == "    "@ + line,
    }
    &&& b.running == a.running && b.view == a.view && b.session == a.session
    &&& b.report_text == a.report_text && b.save_path == a.save_path && b.status_msg
        == a.status_msg
}

/// A diagnosis is over: its report is shown, to be saved at `path`.
pub open spec fn finished(a: Screen, session: Session, path: String, b: Screen) -> bool {
    &&& !b.running && b.view == Pane::Report
    &&& b.session == Some(session) && b.report_text@ == report::report_text(&session)
    &&& b.save_path == path
    &&& b.events == a.events
}

/// It is told how the saving of the report went; only where it went well, the path is
/// kept.
pub open spec fn tells_saved(a: Screen, path: String, failure: Option<String>, b: Screen) -> bool {
    &&& text::holds(b.status_msg@, path@)
    &&& failure matches Some(e) ==> text::holds(b.status_msg@, e@) && b.save_path == a.save_path
    &&& failure is None ==> b.save_path == path
    &&& b.running == a.running && b.view == a.view && b.session == a.session && b.events
        == a.events && b.report_text == a.report_text
}

proof fn lemma_held_inside(a: Seq<char>, needle: Seq<char>, b: Seq<char>)
    ensures
        text::holds(a + needle + b, needle),
{
    text::lemma_holds_itself(needle);
    text::lemma_holds_concat(a, needle, needle);
    text::lemma_holds_concat(a + needle, b, needle);
}

impl Screen {
    /// Clears the window for a diagnosis of `target`.
    pub fn begin(&mut self, target: &str)
        ensures
            final(self).running,
            final(self).current_step@ == "准备中"@,
            final(self).events@.len() == 0,
            final(self).session is None,
            final(self).report_text@ == Seq::<char>::empty(),
            final(self).view == Pane::Log,
            final(self).save_path == old(self).save_path,
            final(self).status_msg@ == "正在诊断 "@ + target@ + " ..."@,
            begun(*final(self), target@),
    {
        self.events = Vec::new();
        self.session = None;
        self.report_text = String::new();
        let mut t = "正在诊断 ".to_string();
        t.append(target);
        t.append(" ...");
        self.status_msg = t;
        self.view = Pane::Log;
        self.running = true;
        self.current_step = "准备中".to_string();
        proof {
            lemma_held_inside("正在诊断 "@, target@, " ..."@);
        }
    }

    /// Shows an event.
    pub fn show(&mut self, e: Event)
        ensures
            final(self).current_step@ == match e@ {
                runner::Told::Step(n, total, title) => step_text(n, total, title),
                runner::Told::Log(_) => old(self).current_step@,
            },
            text::contents(final(self).events@) == text::contents(old(self).events@).push(
                match e@ {
                    runner::Told::Step(n, total, title) => step_text(n, total, title) + " ..."@,
                    runner::Told::Log(line) => "    "@ + line,
                },
            ),
            *final(self) == (Screen {
                current_step: final(self).current_step,
                events: final(self).events,
                ..*old(self)
            }),
            shows(*old(self), e@, *final(self)),
    {
        match e {
            Event::Step { n, total, title } => {
                let mut t = "[".to_string();
                t.append(text::decimal(n as u128).as_str());
                t.append("/");
                t.append(text::decimal(total as u128).as_str());
                t.append("] ");
                t.append(title.as_str());
                self.current_step = t.clone();
                t.append(" ...");
                self.events.push(t);
            },
            Event::Log(line) => {
                let mut t = "    ".to_string();
                t.append(line.as_str());
                self.events.push(t);
            },
        }
        assert(text::contents(self.events@) == text::contents(old(self).events@).push(
            self.events@.last()@,
        ));
        assert(forall|i: int|
            0 <= i < old(self).events@.len() ==> (#[trigger] self.events@[i])
                == old(self).events@[i]);
    }

    /// Shows the report of a diagnosis that is over, to be saved at `path`.
    pub fn finish(&mut self, session: Session, path: String)
        requires
            session.wf(),
        ensures
            final(self).report_text@ == report::report_text(&session),
            final(self).save_path == path,
            final(self).session == Some(session),
            !final(self).running,
            final(self).view == Pane::Report,
            final(self).status_msg@ == "诊断完成"@,
            final(self).events == old(self).events,
            final(self).current_step == old(self).current_step,
            finished(*old(self), session, path, *final(self)),
    {
        self.report_text = render(&session);
        self.save_path = path;
        self.session = Some(session);
        self.running = false;
        self.view = Pane::Report;
        self.status_msg = "诊断完成".to_string();
    }

    /// Where to save the report: at the path that was asked for, or at `other`
    /// where none was.
    pub fn path_to_save(&self, other: String) -> (t: String)
        ensures
            t@ == if text::trimmed(self.save_path@).len() == 0 {
                other@
            } else {
                text::trimmed(self.save_path@)
            },
    {
        let trimmed = text::trim(self.save_path.as_str());
        if trimmed.as_str().is_empty() {
            other
        } else {
            trimmed
        }
    }

    /// Shows how the saving of the report at `path` went.
    pub fn saved(&mut self, path: String, failure: Option<String>)
        ensures
            final(self).save_path == match failure {
                None => path,
                Some(_) => old(self).save_path,
            },
            final(self).status_msg@ == match failure {
                None => "报告已保存: "@ + path@,
                Some(e) => "报告保存失败（"@ + path@ + "）: "@ + e@,
            },
            *final(self) == (Screen {
                save_path: final(self).save_path,
                status_msg: final(self).status_msg,
                ..*old(self)
            }),
            tells_saved(*old(self), path, failure, *final(self)),
    {
        match failure {
            None => {
                let mut t = "报告已保存: ".to_string();
                t.append(path.as_str());
                self.status_msg = t;
                self.save_path = path;
                proof {
                    text::lemma_holds_itself(path@);
                    text::lemma_holds_concat("报告已保存: "@, path@, path@);
                }
            },
            Some(e) => {
                let mut t = "报告保存失败（".to_string();
                t.append(path.as_str());
                t.append("）: ");
                t.append(e.as_str());
                self.status_msg = t;
                proof {
                    let head = "报告保存失败（"@ + path@ + "）: "@;
                    lemma_held_inside("报告保存失败（"@, path@, "）: "@);
                    text::lemma_holds_concat(head, e@, path@);
                    text::lemma_holds_itself(e@);
                    text::lemma_holds_concat(head, e@, e@);
                }
            },
        }
    }

    /// Shows that the report was copied.
    pub fn copied(&mut self)
        ensures
            final(self).status_msg@ == "报告已复制到剪贴板"@,
            *final(self) == (Screen { status_msg: final(self).status_msg, ..*old(self) }),
    {
        self.status_msg = "报告已复制到剪贴板".to_string();
    }

    /// Whether there is nothing to show of a course yet.
    pub fn is_blank(&self) -> (r: bool)
        ensures
            r == (self.events@.len() == 0 && !self.running),
    {
        self.events.len() == 0 && !self.running
    }
}

/// The title of the window.
pub fn title() -> (t: String)
    ensures
        t@ == "诸葛网络问题诊断器 v"@ + VERSION@ + "（图形界面版）"@,
{
    let mut t = "诸葛网络问题诊断器 v".to_string();
    t.append(VERSION);
    t.append("（图形界面版）");
    t
}

/// The colour of a level: red, green, blue.
pub fn colour(level: Level) -> (r: (u8, u8, u8))
    ensures
        r == match level {
            Level::Normal => (30u8, 130u8, 60u8),
            Level::Warn => (200u8, 140u8, 0u8),
            Level::Error => (200u8, 40u8, 40u8),
        },
{
    match level {
        Level::Normal => (30, 130, 60),
        Level::Warn => (200, 140, 0),
        Level::Error => (200, 40, 40),
    }
}

// ---- laws ----

/// The window runs a diagnosis only with numbers that the command line accepts, at
/// least one hop and a target. A wish that is in range is left as it is, and
/// tightening twice is tightening once.
pub proof fn law_submitted_in_range(w: Wish)
    requires
        w.timeout_ms <= u32::MAX,
        w.max_hops <= u8::MAX,
    ensures
        cli::checked(
            cli::Settings {
                target: meant(w).target,
                count: meant(w).count,
                timeout_ms: meant(w).timeout_ms,
                max_hops: meant(w).max_hops,
                quality_count: meant(w).quality_count,
                report_path: None,
            },
        ) is Run,
        meant(w).max_hops >= 1,
        meant(w).target.len() > 0,
        tightened(tightened(w)) == tightened(w),
        1 <= w.count <= 64 && 1 <= w.quality_count <= 1000 && w.timeout_ms >= 100 && w.max_hops >= 1
            ==> tightened(w) == w,
{
    reveal_strlit("223.5.5.5");
}

/// A number of the window that is in range is taken as it is; one below the range counts
/// as its least, one above it as its most. A wait of less than 100 ms counts as 1000,
/// and no hops count as 30.
pub proof fn law_wish_is_taken(w: Wish)
    ensures
        w.count < 1 ==> meant(w).count == 1,
        1 <= w.count <= 64 ==> meant(w).count == w.count,
        w.count > 64 ==> meant(w).count == 64,
        w.quality_count < 1 ==> meant(w).quality_count == 1,
        1 <= w.quality_count <= 1000 ==> meant(w).quality_count == w.quality_count,
        w.quality_count > 1000 ==> meant(w).quality_count == 1000,
        w.timeout_ms < 100 ==> meant(w).timeout_ms == 1000,
        w.timeout_ms >= 100 ==> meant(w).timeout_ms == w.timeout_ms,
        w.max_hops == 0 ==> meant(w).max_hops == 30,
        w.max_hops > 0 ==> meant(w).max_hops == w.max_hops,
        tightened(w).count == meant(w).count,
        tightened(w).quality_count == meant(w).quality_count,
        tightened(w).timeout_ms == meant(w).timeout_ms,
        tightened(w).max_hops == meant(w).max_hops,
        tightened(w).target == w.target,
{
}

/// The target of the window is taken without the white space around it; where nothing
/// else is there, the default target stands in for it.
pub proof fn law_target_is_taken(w: Wish, lead: Seq<char>, t: Seq<char>, trail: Seq<char>)
    requires
        w.target == lead + t + trail,
        forall|i: int| 0 <= i < lead.len() ==> text::is_space(#[trigger] lead[i]),
        forall|i: int| 0 <= i < trail.len() ==> text::is_space(#[trigger] trail[i]),
        t.len() > 0 ==> !text::is_space(t[0]) && !text::is_space(t.last()),
    ensures
        t.len() > 0 ==> meant(w).target == t,
        t.len() == 0 ==> meant(w).target == "223.5.5.5"@,
{
    text::law_trimmed_of_white_space(lead, t, trail);
}

/// Where the report is saved: at the path in the window without the white space around
/// it, or at the other one where nothing else is there.
pub proof fn law_path_is_taken(
    s: &Screen,
    other: String,
    r: String,
    lead: Seq<char>,
    t: Seq<char>,
    trail: Seq<char>,
)
    requires
        call_ensures(Screen::path_to_save, (s, other), r),
        s.save_path@ == lead + t + trail,
        forall|i: int| 0 <= i < lead.len() ==> text::is_space(#[trigger] lead[i]),
        forall|i: int| 0 <= i < trail.len() ==> text::is_space(#[trigger] trail[i]),
        t.len() > 0 ==> !text::is_space(t[0]) && !text::is_space(t.last()),
    ensures
        t.len() > 0 ==> r@ == t,
        t.len() == 0 ==> r@ == other@,
{
    text::law_trimmed_of_white_space(lead, t, trail);
}

/// Levels are told apart by their colours, an error being the reddest.
pub proof fn law_colours_differ(n: (u8, u8, u8), w: (u8, u8, u8), e: (u8, u8, u8))
    requires
        call_ensures(colour, (Level::Normal,), n),
        call_ensures(colour, (Level::Warn,), w),
        call_ensures(colour, (Level::Error,), e),
    ensures
        n != w && w != e && n != e,
        e.0 >= w.0 && e.0 > n.0 && e.1 < w.1,
        n.1 > n.0,
{
}

/// What was shown stays: after two events, the lines of both stand behind the others, in
/// order, and the present step is that of the last step shown.
pub proof fn law_events_are_shown_in_order(
    a: Screen,
    n: nat,
    total: nat,
    title: Seq<char>,
    b: Screen,
    line: Seq<char>,
    c: Screen,
)
    requires
        shows(a, runner::Told::Step(n, total, title), b),
        shows(b, runner::Told::Log(line), c),
    ensures
        c.events@.len() == a.events@.len() + 2,
        forall|i: int| 0 <= i < a.events@.len() ==> (#[trigger] c.events@[i])@ == a.events@[i]@,
        ({
            let t = "["@ + text::dec(n) + "/"@ + text::dec(total) + "] "@ + title;
            &&& c.current_step@ == t
            &&& c.events@[c.events@.len() - 2]@ == t + " ..."@
            &&& c.events@[c.events@.len() - 1]@.len() == 4 + line.len()
            &&& c.events@[c.events@.len() - 1]@.skip(4) == line
        }),
        c.running == a.running && c.session == a.session && c.status_msg == a.status_msg,
{
    reveal_strlit("    ");
    assert(("    "@ + line).skip(4) =~= line);
    assert forall|i: int| 0 <= i < a.events@.len() implies (#[trigger] c.events@[i])@
        == a.events@[i]@ by {
        assert(b.events@[i]@ == a.events@[i]@);
    }
    assert(c.events@[c.events@.len() - 2]@ == b.events@[b.events@.len() - 1]@);
}

/// From its start to its end the window shows one diagnosis: nothing is left of the one
/// before when it starts, and its report is what stands there when it is over.
pub proof fn law_window_shows_one_diagnosis(
    a: Screen,
    target: Seq<char>,
    b: Screen,
    session: Session,
    path: String,
    c: Screen,
)
    requires
        begun(a, target),
        finished(b, session, path, c),
    ensures
        a.running && a.events@.len() == 0 && a.session is None && a.report_text@.len() == 0,
        !c.running && c.session == Some(session) && c.save_path == path,
        c.report_text@ == report::report_text(&session),
        a.view == Pane::Log && c.view == Pane::Report,
        c.events == b.events,
{
}

/// A report that could not be saved leaves the path as it was and says why; one that was
/// saved keeps the path.
pub proof fn law_saving_is_told(
    a: Screen,
    path: String,
    failure: Option<String>,
    b: Screen,
)
    requires
        tells_saved(a, path, failure, b),
    ensures
        failure is None ==> b.save_path == path,
        failure is Some ==> b.save_path == a.save_path && text::holds(b.status_msg@, failure->0@),
        text::holds(b.status_msg@, path@),
        b.session == a.session && b.report_text == a.report_text,
{
}

} // verus!
