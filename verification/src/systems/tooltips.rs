//! Names and health shown when the mouse points at an entity the player sees.
use vstd::prelude::*;
use vstd::string::{StrSliceExecFns, StringExecFns};
use crate::geometry::{Camera, Point, DISPLAY_WIDTH};
use crate::world::{first_answer, lemma_first_answer, EntityRecord, Query, World};

verus! {

/// The decimal digits of `n`.
pub open spec fn decimal_digits(n: nat) -> Seq<char>
    decreases n,
{
    let d = (n % 10) as u32;
    let c = ('0' as u32 + d) as char;
    if n < 10 {
        seq![c]
    } else {
        decimal_digits(n / 10).push(c)
    }
}

/// `n` written in decimal, with a minus sign when negative.
pub open spec fn decimal(n: int) -> Seq<char> {
    if n < 0 {
        seq!['-'] + decimal_digits((-n) as nat)
    } else {
        decimal_digits(n as nat)
    }
}

/// The tooltip text of an entity named `name` with `hp` health: `name: hphp`.
pub open spec fn health_label(name: Seq<char>, hp: i32) -> Seq<char> {
    name + seq![':', ' '] + decimal(hp as int) + seq!['h', 'p']
}

/// Calls std's `ToString` on an `i32`, which writes it in decimal through `Display`: a minus
/// sign first when negative, then its digits with no leading zero.
#[verifier::external_body]
fn decimal_text(n: i32) -> (r: String)
    ensures
        r@ == decimal(n as int),
{
    n.to_string()
}

/// The tooltip text `name: hphp` of an entity named `name` with `hp` health.
pub fn health_text(name: &String, hp: i32) -> (r: String)
    ensures
        r@ == health_label(name@, hp),
{
    let digits = decimal_text(hp);
    let mut label = name.clone();
    label.append(": ");
    label.append(digits.as_str());
    label.append("hp");
    proof {
        reveal_strlit(": ");
        reveal_strlit("hp");
        assert(label@ =~= health_label(name@, hp));
    }
    label
}

/// A text to show at a place on the heads-up display.
pub struct Tooltip {
    pub pos: Point,
    pub text: String,
}

/// The text of an entity's tooltip: its name, and its health when it has some.
pub open spec fn tooltip_text(recs: Seq<EntityRecord>, i: int) -> Seq<char> {
    let c = recs[i].components;
    match c.health {
        Some(h) => health_label(c.name->0@, h.current),
        None => c.name->0@,
    }
}

/// Where a tooltip of `len` characters for the mouse at `mouse` goes: at twice the mouse's
/// place (the display's characters are half as large), one row up, moved left so as not to
/// run off the display's right edge.
pub open spec fn tooltip_pos(mouse: Point, len: int) -> Point {
    let threshold = DISPLAY_WIDTH * 2 - len;
    Point {
        x: (if mouse.x * 2 > threshold { threshold } else { mouse.x * 2 }) as i32,
        y: (mouse.y * 2 - 1) as i32,
    }
}

/// A tooltip never runs past the right edge of the heads-up display.
pub proof fn lemma_tooltip_fits(mouse: Point, len: int)
    requires
        0 <= len <= i32::MAX,
        i32::MIN <= mouse.x * 2 <= i32::MAX,
    ensures
        tooltip_pos(mouse, len).x + len <= DISPLAY_WIDTH * 2,
{
}

/// The tooltips, in order, of the first `n` records that have a name and stand at `map_pos`,
/// when the player sees that place; each one's place and text.
pub open spec fn tooltips_upto(recs: Seq<EntityRecord>, sees: bool, map_pos: Point, mouse: Point, n: int) -> Seq<(Point, Seq<char>)>
    decreases n,
{
    if n <= 0 {
        Seq::empty()
    } else {
        let rest = tooltips_upto(recs, sees, map_pos, mouse, n - 1);
        let c = recs[n - 1].components;
        if c.position == Some(map_pos) && c.name is Some && sees {
            let t = tooltip_text(recs, n - 1);
            rest.push((tooltip_pos(mouse, t.len() as int), t))
        } else {
            rest
        }
    }
}

/// The map point under the mouse: the mouse's place moved by the camera's top-left corner.
pub open spec fn mouse_map_pos(mouse: Point, camera: Camera) -> Point {
    Point { x: (mouse.x + camera.left_x) as i32, y: (mouse.y + camera.top_y) as i32 }
}

/// Whether tooltips can be computed within `i32`: the mouse, moved by the camera, doubled and
/// moved up a row, stays in range, and the text of each entity under the mouse is no longer
/// than an `i32` counts.
pub open spec fn tooltips_ready(recs: Seq<EntityRecord>, mouse: Point, camera: Camera) -> bool {
    &&& first_answer(recs, Query::PlayerWithView) >= 0
    &&& i32::MIN <= mouse.x + camera.left_x <= i32::MAX
    &&& i32::MIN <= mouse.y + camera.top_y <= i32::MAX
    &&& i32::MIN <= mouse.x * 2 <= i32::MAX
    &&& i32::MIN <= mouse.y * 2 - 1
    &&& mouse.y * 2 <= i32::MAX
    &&& forall|i: int|
        0 <= i < recs.len() && (#[trigger] recs[i]).components.position == Some(mouse_map_pos(mouse, camera))
            && recs[i].components.name is Some ==> tooltip_text(recs, i).len() <= i32::MAX
}

/// The tooltips for the mouse at `mouse_pos` on the map's view: every entity with a name at
/// the map point under the mouse, when the player (the first with a view) sees it.
pub fn tooltips(ecs: &World, mouse_pos: &Point, camera: &Camera) -> (r: Vec<Tooltip>)
    requires
        tooltips_ready(ecs.records@, *mouse_pos, *camera),
    ensures
        ({
            let recs = ecs.records@;
            let map_pos = mouse_map_pos(*mouse_pos, *camera);
            let pi = first_answer(recs, Query::PlayerWithView);
            let sees = recs[pi].components.field_of_view->0.visible_tiles@.contains(map_pos);
            let t = tooltips_upto(recs, sees, map_pos, *mouse_pos, recs.len() as int);
            &&& r@.len() == t.len()
            &&& forall|k: int| 0 <= k < t.len() ==> (#[trigger] r@[k]).pos == t[k].0 && r@[k].text@ == t[k].1
        }),
{
    let ghost recs = ecs.records@;
    proof {
        lemma_first_answer(recs, Query::PlayerWithView);
    }
    let offset = camera.offset();
    let map_pos = Point::new(mouse_pos.x + offset.x, mouse_pos.y + offset.y);
    let pi = ecs.first(Query::PlayerWithView).unwrap();
    let fov = ecs.records[pi].components.field_of_view.as_ref().unwrap();
    let sees = fov.is_visible(map_pos);
    let ghost t = tooltips_upto(recs, sees, map_pos, *mouse_pos, recs.len() as int);
    let mut tips: Vec<Tooltip> = Vec::new();
    let mut i: usize = 0;
    while i < ecs.records.len()
        invariant
            recs == ecs.records@,
            i <= recs.len(),
            tooltips_ready(recs, *mouse_pos, *camera),
            map_pos == mouse_map_pos(*mouse_pos, *camera),
            tips@.len() == tooltips_upto(recs, sees, map_pos, *mouse_pos, i as int).len(),
            forall|k: int| 0 <= k < tips@.len() ==> (#[trigger] tips@[k]).pos == tooltips_upto(recs, sees, map_pos, *mouse_pos, i as int)[k].0
                && tips@[k].text@ == tooltips_upto(recs, sees, map_pos, *mouse_pos, i as int)[k].1,
        decreases recs.len() - i,
    {
        let c = &ecs.records[i].components;
        if c.position == Some(map_pos) && sees {
            if let Some(name) = &c.name {
                let display = match c.health {
                    Some(health) => health_text(name, health.current),
                    None => name.clone(),
                };
                let ghost text = tooltip_text(recs, i as int);
                assert(display@ == text);
                assert(recs[i as int].components.position == Some(mouse_map_pos(*mouse_pos, *camera)));
                assert(text.len() <= i32::MAX);
                let count = display.as_str().unicode_len();
                let hud_width = DISPLAY_WIDTH * 2;
                let treshold_x = hud_width - count as i32;
                let mut screen_pos = Point::new(mouse_pos.x * 2, mouse_pos.y * 2);
                if screen_pos.x > treshold_x {
                    screen_pos.x = treshold_x;
                }
                tips.push(Tooltip { pos: Point::new(screen_pos.x, screen_pos.y - 1), text: display });
            }
        }
        i += 1;
    }
    tips
}

} // verus!
