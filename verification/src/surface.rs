use vstd::prelude::*;

verus! {

/// The two screen arrangements: a roomy work view and a compact glance view.
#[derive(Debug, Clone, Copy, PartialEq, Eq, Structural)]
pub enum Surface {
    Work,
    Glance,
}

/// Smallest terminal width that still gets the work surface by default.
pub const WORK_MIN_COLS: u16 = 40;

/// Smallest terminal height that still gets the work surface by default.
pub const WORK_MIN_ROWS: u16 = 16;

/// The surface that is not `s`.
pub open spec fn other_spec(s: Surface) -> Surface {
    match s {
        Surface::Work => Surface::Glance,
        Surface::Glance => Surface::Work,
    }
}

impl Surface {
    /// The other surface.
    pub fn other(self) -> (r: Self)
        ensures
            r == other_spec(self),
    {
        match self {
            Surface::Work => Surface::Glance,
            Surface::Glance => Surface::Work,
        }
    }
}

/// The surface a terminal of `cols` x `rows` starts on.
pub open spec fn auto_surface_spec(cols: u16, rows: u16) -> Surface {
    if cols < WORK_MIN_COLS || rows < WORK_MIN_ROWS {
        Surface::Glance
    } else {
        Surface::Work
    }
}

/// Picks Glance for terminals narrower than `WORK_MIN_COLS` or shorter than
/// `WORK_MIN_ROWS`, Work otherwise.
pub fn auto_surface(cols: u16, rows: u16) -> (r: Surface)
    ensures
        r == auto_surface_spec(cols, rows),
{
    if cols < WORK_MIN_COLS || rows < WORK_MIN_ROWS {
        Surface::Glance
    } else {
        Surface::Work
    }
}

/// Switching surface always changes it, and switching twice comes back to
/// where it started.
pub proof fn law_other_twice_is_identity(s: Surface)
    ensures
        other_spec(s) != s,
        other_spec(other_spec(s)) == s,
{
}

} // verus!
