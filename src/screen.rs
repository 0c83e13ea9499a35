use vstd::prelude::*;

verus! {

/// The size and position of one monitor.
#[derive(Debug, Clone, Copy, PartialEq, Eq, Structural)]
pub struct ScreenInfo {
    pub width: u32,
    pub height: u32,
    pub x: i16,
    pub y: i16,
}

/// True when point (`x`, `y`) lies on screen `s`.
pub open spec fn on_screen(s: ScreenInfo, x: i16, y: i16) -> bool {
    &&& s.x <= x
    &&& x < s.x + s.width
    &&& s.y <= y
    &&& y < s.y + s.height
}

/// The first of `screens` on which point (`x`, `y`) lies, if any.
pub fn screen_at(screens: &Vec<ScreenInfo>, x: i16, y: i16) -> (r: Option<ScreenInfo>)
    ensures
        r is None <==> forall|i: int| 0 <= i < screens@.len() ==> !on_screen(#[trigger] screens@[i], x, y),
        r is Some ==> exists|i: int|
            0 <= i < screens@.len() && screens@[i] == r->Some_0 && on_screen(screens@[i], x, y) && forall|j: int|
                0 <= j < i ==> !on_screen(#[trigger] screens@[j], x, y),
{
    let mut i: usize = 0;
    while i < screens.len()
        invariant
            i <= screens@.len(),
            forall|j: int| 0 <= j < i ==> !on_screen(#[trigger] screens@[j], x, y),
        decreases screens@.len() - i,
    {
        let s = screens[i];
        if s.x as i64 <= x as i64 && (x as i64) < s.x as i64 + s.width as i64 && s.y as i64
            <= y as i64 && (y as i64) < s.y as i64 + s.height as i64 {
            return Some(s);
        }
        i = i + 1;
    }
    None
}

} // verus!
