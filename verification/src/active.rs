//! The active-chain classifier.
//!
//! A window is painted as active when it is the foreground window, when
//! walking its owner chain reaches the foreground window, or when it is a
//! popup-menu-class window belonging to the same process as the
//! foreground window (menus are owner-less but visually belong to the
//! active application). The owner relation is handed in as a snapshot
//! table of `(window, owner)` pairs, with zero standing for "no window";
//! the walk is bounded in depth to survive a pathological owner cycle.

use vstd::prelude::*;
use crate::text::{seq_contains, str_contains};

verus! {

/// The bound on owner-chain walks.
pub const MAX_CHAIN_DEPTH: u32 = 64;

/// The class-name fragment of the native popup-menu window class.
pub open spec fn menu_class_fragment() -> Seq<char> {
    "#32768"@
}

/// The owner of a window under a snapshot table: the second component of
/// the first pair whose first component is the window, or zero.
pub open spec fn owner_of(table: Seq<(u64, u64)>, h: u64) -> u64
    decreases table.len(),
{
    if table.len() == 0 {
        0
    } else if table[0].0 == h {
        table[0].1
    } else {
        owner_of(table.drop_first(), h)
    }
}

/// Whether the owner chain starting at `h` reaches the foreground window
/// `fg` within `fuel` steps. A zero handle on either side never reaches.
pub open spec fn chain_reaches(table: Seq<(u64, u64)>, h: u64, fg: u64, fuel: nat) -> bool
    decreases fuel,
{
    if h == 0 || fg == 0 {
        false
    } else if h == fg {
        true
    } else if fuel == 0 {
        false
    } else {
        let o = owner_of(table, h);
        if o == 0 {
            false
        } else {
            chain_reaches(table, o, fg, (fuel - 1) as nat)
        }
    }
}

/// Looks up a window's owner in the snapshot table.
pub fn lookup_owner(table: &Vec<(u64, u64)>, h: u64) -> (o: u64)
    ensures
        o == owner_of(table@, h),
{
    let mut i: usize = 0;
    proof {
        assert(table@.skip(0) =~= table@);
    }
    while i < table.len()
        invariant
            i <= table@.len(),
            owner_of(table@, h) == owner_of(table@.skip(i as int), h),
        decreases table@.len() - i,
    {
        proof {
            assert(table@.skip(i as int)[0] == table@[i as int]);
            assert(table@.skip(i as int).drop_first() =~= table@.skip(i as int + 1));
        }
        if table[i].0 == h {
            return table[i].1;
        }
        i = i + 1;
    }
    proof {
        assert(table@.skip(table@.len() as int) =~= Seq::<(u64, u64)>::empty());
    }
    0
}

/// Walks the owner chain from `hwnd`, at most [`MAX_CHAIN_DEPTH`] steps,
/// and reports whether it reaches the foreground window.
pub fn is_part_of_active_chain(table: &Vec<(u64, u64)>, hwnd: u64, fg: u64) -> (r: bool)
    ensures
        r == chain_reaches(table@, hwnd, fg, MAX_CHAIN_DEPTH as nat),
{
    if fg == 0 || hwnd == 0 {
        return false;
    }
    let mut cur: u64 = hwnd;
    let mut fuel: u32 = MAX_CHAIN_DEPTH;
    loop
        invariant
            fg != 0,
            cur != 0,
            fuel <= MAX_CHAIN_DEPTH,
            chain_reaches(table@, hwnd, fg, MAX_CHAIN_DEPTH as nat) == chain_reaches(
                table@,
                cur,
                fg,
                fuel as nat,
            ),
        decreases fuel,
    {
        if cur == fg {
            return true;
        }
        let o = lookup_owner(table, cur);
        if o == 0 {
            return false;
        }
        if fuel == 0 {
            return false;
        }
        fuel = fuel - 1;
        cur = o;
    }
}

/// Whether a window counts as active: it is in the foreground window's
/// owner chain, or it is a popup-menu-class window of the foreground
/// process.
pub open spec fn spec_is_active(
    table: Seq<(u64, u64)>,
    hwnd: u64,
    fg: u64,
    pid: u32,
    fg_pid: u32,
    class: Seq<char>,
) -> bool {
    chain_reaches(table, hwnd, fg, MAX_CHAIN_DEPTH as nat) || (fg_pid != 0 && pid == fg_pid
        && seq_contains(class, menu_class_fragment()))
}

/// Classifies a window as active or inactive. `pid` is the window's
/// owning process and `fg_pid` the foreground window's process, zero when
/// there is no foreground window.
pub fn is_active(
    table: &Vec<(u64, u64)>,
    hwnd: u64,
    fg: u64,
    pid: u32,
    fg_pid: u32,
    class: &str,
) -> (r: bool)
    ensures
        r == spec_is_active(table@, hwnd, fg, pid, fg_pid, class@),
{
    if is_part_of_active_chain(table, hwnd, fg) {
        return true;
    }
    if fg_pid != 0 && pid == fg_pid {
        return str_contains(class, "#32768");
    }
    false
}

/// The foreground window itself always classifies as active.
pub proof fn lemma_foreground_is_active(
    table: Seq<(u64, u64)>,
    fg: u64,
    pid: u32,
    fg_pid: u32,
    class: Seq<char>,
)
    requires
        fg != 0,
    ensures
        spec_is_active(table, fg, fg, pid, fg_pid, class),
{
}

/// A window whose owner chain steps to a window that reaches the
/// foreground window reaches it too, while a step of fuel remains.
pub proof fn lemma_chain_step(table: Seq<(u64, u64)>, hwnd: u64, fg: u64, fuel: nat)
    requires
        hwnd != 0,
        fg != 0,
        hwnd != fg,
        fuel > 0,
        owner_of(table, hwnd) != 0,
        chain_reaches(table, owner_of(table, hwnd), fg, (fuel - 1) as nat),
    ensures
        chain_reaches(table, hwnd, fg, fuel),
{
}

} // verus!
