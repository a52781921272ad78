//! Boxes that a cursor can hit, and dragging buildings around with it.

use crate::building::Building;
use crate::vector::{point_negated, point_plus, point_scaled, Vec2};
use vstd::prelude::*;

verus! {

/// The position of the cursor, in world coordinates.
#[derive(Clone, Copy, Debug, Default)]
pub struct CursorPosition(pub Vec2);

/// The axis-aligned box in which a click counts as a hit.
#[derive(Clone, Copy, Debug, Default)]
pub struct Interactable {
    pub bottom_left: Vec2,
    pub top_right: Vec2,
}

/// What can be picked up with the cursor and carried.
#[derive(Clone, Copy, Debug, Default)]
pub struct Draggable {
    pub interact: Interactable,
    pub being_dragged: bool,
}

/// The point lies strictly inside the box.
pub open spec fn strictly_inside(p: (int, int), bottom_left: (int, int), top_right: (int, int)) -> bool {
    &&& p.0 > bottom_left.0
    &&& p.1 > bottom_left.1
    &&& p.0 < top_right.0
    &&& p.1 < top_right.1
}

/// The box of the given size centred on `centre`: half the size, rounded toward
/// zero, lies on either side.
pub open spec fn box_around(centre: (int, int), size: (int, int)) -> ((int, int), (int, int)) {
    let half = point_scaled(size, 1, 2);
    (point_plus(centre, point_negated(half)), point_plus(centre, half))
}

impl Interactable {
    /// The box of the given size centred on `centre`.
    pub fn around(centre: &Vec2, size: &Vec2) -> (b: Interactable)
        ensures
            (b.bottom_left@, b.top_right@) == box_around(centre@, size@),
    {
        let half: Vec2 = size.scaled(1, 2);
        Interactable { bottom_left: centre.plus(half.negated()), top_right: centre.plus(half) }
    }
}

/// Returns `true` if the cursor is within the interactable's bounding box,
/// borders excluded.
pub fn clicked_on(cursor_pos: &CursorPosition, interactable: &Interactable) -> (hit: bool)
    ensures
        hit == strictly_inside(cursor_pos.0@, interactable.bottom_left@, interactable.top_right@),
{
    cursor_pos.0.x() > interactable.bottom_left.x() && cursor_pos.0.y()
        > interactable.bottom_left.y() && cursor_pos.0.x() < interactable.top_right.x()
        && cursor_pos.0.y() < interactable.top_right.y()
}

/// What the mouse did during one tick.
#[derive(Clone, Copy, Debug, Default, PartialEq, Eq, Structural)]
pub struct MouseButtons {
    pub just_pressed: bool,
    pub pressed: bool,
    pub just_released: bool,
}

/// Whether the building is carried once the press of this tick is counted.
pub open spec fn picked_up(b: Building, cursor: CursorPosition, mouse: MouseButtons) -> bool {
    b.draggable.being_dragged || (mouse.just_pressed && strictly_inside(
        cursor.0@,
        b.draggable.interact.bottom_left@,
        b.draggable.interact.top_right@,
    ))
}

/// The building after one tick of the mouse: picked up by a press inside its
/// box, carried to the cursor while the button is held, dropped on release.
pub open spec fn dragged(b: Building, cursor: CursorPosition, mouse: MouseButtons) -> Building {
    Building {
        position: if mouse.pressed && picked_up(b, cursor, mouse) {
            cursor.0
        } else {
            b.position
        },
        draggable: Draggable {
            being_dragged: picked_up(b, cursor, mouse) && !mouse.just_released,
            ..b.draggable
        },
        ..b
    }
}

/// Every building of `after` is the building of `before` after one tick of the
/// mouse.
pub open spec fn all_dragged(
    before: Seq<Building>,
    after: Seq<Building>,
    cursor: CursorPosition,
    mouse: MouseButtons,
) -> bool {
    &&& after.len() == before.len()
    &&& forall|i: int| 0 <= i < before.len() ==> #[trigger] after[i] == dragged(before[i], cursor, mouse)
}

/// One tick of dragging buildings with the mouse.
pub fn dragging_system(
    buildings: &mut Vec<Building>,
    mouse: &MouseButtons,
    cursor_pos: &CursorPosition,
)
    ensures
        all_dragged(old(buildings)@, final(buildings)@, *cursor_pos, *mouse),
{
    let mut i: usize = 0;
    while i < buildings.len()
        invariant
            0 <= i <= buildings.len(),
            buildings.len() == old(buildings).len(),
            forall|j: int| i <= j < buildings.len() ==> buildings[j] == old(buildings)[j],
            forall|j: int|
                0 <= j < i ==> #[trigger] buildings[j] == dragged(
                    old(buildings)[j],
                    *cursor_pos,
                    *mouse,
                ),
        decreases buildings.len() - i,
    {
        if mouse.just_pressed {
            let hit: bool = clicked_on(cursor_pos, &buildings[i].draggable.interact);
            if hit {
                buildings[i].draggable.being_dragged = true;
            }
        }
        if mouse.pressed {
            if buildings[i].draggable.being_dragged {
                buildings[i].position = cursor_pos.0;
            }
        }
        if mouse.just_released {
            buildings[i].draggable.being_dragged = false;
        }
        i += 1;
    }
}

} // verus!
