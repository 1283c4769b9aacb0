//! Choices made when the window surface is configured: its format, its
//! present mode and its size.
use vstd::prelude::*;

verus! {

/// How frames are presented to the window.
#[derive(Debug, Clone, Copy, PartialEq, Eq, Structural)]
pub enum PresentMode {
    AutoVsync,
    AutoNoVsync,
    Fifo,
    FifoRelaxed,
    Immediate,
    Mailbox,
}

/// The surface format to use.
#[derive(Debug, Clone, Copy, PartialEq, Eq, Structural)]
pub enum FormatChoice {
    /// The surface offers no format: use `Bgra8UnormSrgb`, with the present
    /// modes of `fallback_present_modes` and opaque alpha.
    Fallback,
    /// The offered format at this position.
    Available(usize),
}

/// The surface format from the offered formats, each given by whether it is
/// sRGB: the fallback when none is offered, else the first sRGB one, else the
/// first one.
pub fn choose_surface_format(srgb: &[bool]) -> (choice: FormatChoice)
    ensures
        srgb@.len() == 0 ==> choice == FormatChoice::Fallback,
        srgb@.len() > 0 ==> (choice matches FormatChoice::Available(i) && i < srgb@.len() && (if exists|k: int|
            0 <= k < srgb@.len() && srgb@[k] {
            srgb@[i as int] && forall|j: int| 0 <= j < i ==> !srgb@[j]
        } else {
            i == 0
        })),
{
    if srgb.len() == 0 {
        return FormatChoice::Fallback;
    }
    let mut i: usize = 0;
    while i < srgb.len()
        invariant
            i <= srgb@.len(),
            forall|j: int| 0 <= j < i ==> !srgb@[j],
        decreases srgb@.len() - i,
    {
        if srgb[i] {
            return FormatChoice::Available(i);
        }
        i = i + 1;
    }
    FormatChoice::Available(0)
}

/// The present modes assumed when the surface offers no format.
pub fn fallback_present_modes() -> (modes: Vec<PresentMode>)
    ensures
        modes@ == seq![PresentMode::Fifo, PresentMode::Immediate],
{
    let mut modes: Vec<PresentMode> = Vec::new();
    modes.push(PresentMode::Fifo);
    modes.push(PresentMode::Immediate);
    proof {
        assert(modes@ =~= seq![PresentMode::Fifo, PresentMode::Immediate]);
    }
    modes
}

/// The present mode, preferring `Immediate`, then `Mailbox`, then `Fifo`, else
/// the first one offered.
pub fn choose_present_mode(available: &[PresentMode]) -> (mode: PresentMode)
    requires
        available@.len() > 0,
    ensures
        mode == if available@.contains(PresentMode::Immediate) {
            PresentMode::Immediate
        } else if available@.contains(PresentMode::Mailbox) {
            PresentMode::Mailbox
        } else if available@.contains(PresentMode::Fifo) {
            PresentMode::Fifo
        } else {
            available@[0]
        },
{
    if contains_mode(available, PresentMode::Immediate) {
        PresentMode::Immediate
    } else if contains_mode(available, PresentMode::Mailbox) {
        PresentMode::Mailbox
    } else if contains_mode(available, PresentMode::Fifo) {
        PresentMode::Fifo
    } else {
        available[0]
    }
}

fn contains_mode(available: &[PresentMode], wanted: PresentMode) -> (found: bool)
    ensures
        found == available@.contains(wanted),
{
    let mut i: usize = 0;
    while i < available.len()
        invariant
            i <= available@.len(),
            forall|j: int| 0 <= j < i ==> available@[j] != wanted,
        decreases available@.len() - i,
    {
        if available[i] == wanted {
            proof {
                assert(available@[i as int] == wanted);
            }
            return true;
        }
        i = i + 1;
    }
    false
}

/// The surface size: the window's, at least one pixel each way.
pub fn surface_extent(width: u32, height: u32) -> (extent: (u32, u32))
    ensures
        extent == ((if width < 1 {
            1u32
        } else {
            width
        }), (if height < 1 {
            1u32
        } else {
            height
        })),
{
    let w = if width < 1 {
        1
    } else {
        width
    };
    let h = if height < 1 {
        1
    } else {
        height
    };
    (w, h)
}

} // verus!
