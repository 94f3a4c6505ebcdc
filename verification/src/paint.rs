//! The paint plan: which color, if any, each enumerated window gets.
//!
//! For every window in a snapshot this resolves the rule colors, selects
//! the active or inactive slot by the active-chain classification, and
//! emits one paint command per window whose selected color is concrete.
//! In reset mode every window is told to restore the system default, so
//! that no custom border outlives the process.

use vstd::prelude::*;
use crate::active::{is_active, spec_is_active};
use crate::color::{BorderColor, COLOR_DEFAULT};
use crate::config::Config;
use crate::matcher::{resolve, rules_v, spec_rainbow_active, spec_resolve, is_rainbow_active};
use crate::rainbow::{color_of_phase, spec_color_of_phase};
use crate::text::{seq_contains, str_contains};

verus! {

/// The extended-style bit that marks a tool window.
pub const WS_EX_TOOLWINDOW: u32 = 0x80;

/// One enumerated window: its handle and what the rules read of it.
pub struct WindowInfo {
    pub handle: u64,
    pub title: String,
    pub class: String,
    pub pid: u32,
}

/// The mathematical image of an enumerated window.
#[verifier::ext_equal]
pub ghost struct WindowInfoV {
    pub handle: u64,
    pub title: Seq<char>,
    pub class: Seq<char>,
    pub pid: u32,
}

impl View for WindowInfo {
    type V = WindowInfoV;

    open spec fn view(&self) -> WindowInfoV {
        WindowInfoV {
            handle: self.handle,
            title: self.title@,
            class: self.class@,
            pid: self.pid,
        }
    }
}

/// One instruction to the color applier: set this window's border
/// attribute to this value.
#[derive(Clone, Copy, Debug, PartialEq, Eq, Structural)]
pub struct PaintCommand {
    pub handle: u64,
    pub color: u32,
}

/// Whether enumeration keeps a window: anything that is not a tool
/// window, and tool windows of the native popup-menu class.
pub open spec fn spec_window_passes_filter(ex_style: u32, class: Seq<char>) -> bool {
    (ex_style & WS_EX_TOOLWINDOW) == 0 || seq_contains(
        class,
        crate::active::menu_class_fragment(),
    )
}

/// Decides whether an enumerated window is kept for painting.
pub fn window_passes_filter(ex_style: u32, class: &str) -> (r: bool)
    ensures
        r == spec_window_passes_filter(ex_style, class@),
{
    if ex_style & WS_EX_TOOLWINDOW == 0 {
        true
    } else {
        str_contains(class, "#32768")
    }
}

/// The color to push for a window, given its resolved pair, its
/// classification, and the current rainbow phase; `None` paints nothing.
pub open spec fn spec_color_to_apply(
    active: BorderColor,
    inactive: BorderColor,
    considered_active: bool,
    phase: u32,
) -> Option<u32> {
    let chosen = if considered_active {
        active
    } else {
        inactive
    };
    match chosen {
        BorderColor::Invalid => None,
        BorderColor::SystemDefault => Some(COLOR_DEFAULT),
        BorderColor::Rainbow => Some(spec_color_of_phase(phase)),
        BorderColor::Solid(v) => Some(v),
    }
}

/// Selects and concretizes the color for one window.
pub fn color_to_apply(
    active: BorderColor,
    inactive: BorderColor,
    considered_active: bool,
    phase: u32,
) -> (r: Option<u32>)
    ensures
        r == spec_color_to_apply(active, inactive, considered_active, phase),
{
    let chosen = if considered_active {
        active
    } else {
        inactive
    };
    match chosen {
        BorderColor::Invalid => None,
        BorderColor::SystemDefault => Some(COLOR_DEFAULT),
        BorderColor::Rainbow => Some(color_of_phase(phase)),
        BorderColor::Solid(v) => Some(v),
    }
}

/// The color one window is painted with, or `None` to leave it alone.
pub open spec fn spec_paint_color(
    w: WindowInfoV,
    table: Seq<(u64, u64)>,
    fg: u64,
    fg_pid: u32,
    rules: Seq<crate::config::RuleV>,
    phase: u32,
    reset: bool,
) -> Option<u32> {
    if reset {
        Some(COLOR_DEFAULT)
    } else {
        let pair = spec_resolve(rules, w.title, w.class);
        spec_color_to_apply(
            pair.0,
            pair.1,
            spec_is_active(table, w.handle, fg, w.pid, fg_pid, w.class),
            phase,
        )
    }
}

/// The whole plan for a window snapshot, in enumeration order.
pub open spec fn spec_paint_plan(
    ws: Seq<WindowInfoV>,
    table: Seq<(u64, u64)>,
    fg: u64,
    fg_pid: u32,
    rules: Seq<crate::config::RuleV>,
    phase: u32,
    reset: bool,
) -> Seq<PaintCommand>
    decreases ws.len(),
{
    if ws.len() == 0 {
        Seq::empty()
    } else {
        let rest = spec_paint_plan(ws.drop_last(), table, fg, fg_pid, rules, phase, reset);
        match spec_paint_color(ws.last(), table, fg, fg_pid, rules, phase, reset) {
            Some(c) => rest.push(PaintCommand { handle: ws.last().handle, color: c }),
            None => rest,
        }
    }
}

/// The image of a window vector.
pub open spec fn windows_v(ws: Seq<WindowInfo>) -> Seq<WindowInfoV> {
    Seq::new(ws.len(), |i: int| ws[i]@)
}

/// Computes the paint commands for a window snapshot: per window the
/// resolved, selected, concretized color, skipping windows whose color
/// is invalid; in reset mode, the system default for every window.
pub fn paint_plan(
    windows: &Vec<WindowInfo>,
    table: &Vec<(u64, u64)>,
    fg: u64,
    fg_pid: u32,
    config: &Config,
    phase: u32,
    reset: bool,
) -> (r: Vec<PaintCommand>)
    ensures
        r@ == spec_paint_plan(
            windows_v(windows@),
            table@,
            fg,
            fg_pid,
            rules_v(config.window_rules@),
            phase,
            reset,
        ),
{
    let ghost wsv = windows_v(windows@);
    let ghost rv = rules_v(config.window_rules@);
    let mut r: Vec<PaintCommand> = Vec::new();
    let mut i: usize = 0;
    proof {
        assert(wsv.take(0) =~= Seq::<WindowInfoV>::empty());
    }
    while i < windows.len()
        invariant
            wsv == windows_v(windows@),
            rv == rules_v(config.window_rules@),
            i <= windows@.len(),
            r@ == spec_paint_plan(wsv.take(i as int), table@, fg, fg_pid, rv, phase, reset),
        decreases windows@.len() - i,
    {
        let w = &windows[i];
        proof {
            assert(wsv.take(i as int + 1).drop_last() =~= wsv.take(i as int));
            assert(wsv.take(i as int + 1).last() == wsv[i as int]);
            assert(wsv[i as int] == windows@[i as int]@);
        }
        let cmd_color: Option<u32> = if reset {
            Some(COLOR_DEFAULT)
        } else {
            let pair = resolve(w.title.as_str(), w.class.as_str(), &config.window_rules);
            let act = is_active(table, w.handle, fg, w.pid, fg_pid, w.class.as_str());
            color_to_apply(pair.0, pair.1, act, phase)
        };
        match cmd_color {
            Some(c) => {
                r.push(PaintCommand { handle: w.handle, color: c });
            },
            None => {},
        }
        i = i + 1;
    }
    proof {
        assert(wsv.take(windows@.len() as int) =~= wsv);
    }
    r
}

/// Whether a foreground-change event should trigger an immediate
/// repaint: only while the rainbow animation is off, since the painter
/// loop already repaints every frame when it is on.
pub fn should_repaint_on_foreground_change(config: &Config) -> (r: bool)
    ensures
        r == !spec_rainbow_active(config@.window_rules),
{
    !is_rainbow_active(config)
}

} // verus!
