use game::environment::bush;
use game::environment::cliffs::CliffVariant;
use game::environment::water::WaterVariant;
use game::environment::{Direction, HalfTileRect, Interaction, Tile};
use game::inventory::Item;

#[test]
fn bush_interact_picks_berries() {
    let mut t = Tile::BerryBush;
    assert_eq!(bush::interact(&mut t), Some(Item::Berry));
    assert_eq!(t, Tile::Bush);
    assert_eq!(bush::interact(&mut t), None);
    assert_eq!(t, Tile::Bush);
}

#[test]
fn bush_attack_cuts_down() {
    let mut t = Tile::Bush;
    assert_eq!(bush::attack(&mut t), Some(Item::Twig));
    assert_eq!(t, Tile::Grass);
    let mut t = Tile::BerryBush;
    assert_eq!(bush::attack(&mut t), Some(Item::Twig));
    assert_eq!(t, Tile::Grass);
    let mut t = Tile::TreeTrunk;
    assert_eq!(bush::attack(&mut t), None);
    assert_eq!(t, Tile::TreeTrunk);
}

#[test]
fn tile_interact() {
    let mut t = Tile::Water(WaterVariant::Top);
    assert_eq!(t.interact(), Interaction { item: None, thirst_maxed: true });
    assert_eq!(t, Tile::Water(WaterVariant::Top));
    let mut t = Tile::BerryBush;
    assert_eq!(t.interact(), Interaction { item: Some(Item::Berry), thirst_maxed: false });
    assert_eq!(t, Tile::Bush);
    let mut t = Tile::Cliff(CliffVariant::Top);
    assert_eq!(t.interact(), Interaction { item: None, thirst_maxed: false });
    let mut t = Tile::Grass;
    assert_eq!(t.interact(), Interaction { item: None, thirst_maxed: false });
}

#[test]
fn tile_attack() {
    let mut t = Tile::Bush;
    assert_eq!(t.attack(), Some(Item::Twig));
    assert_eq!(t, Tile::Grass);
    let mut t = Tile::Water(WaterVariant::Center);
    assert_eq!(t.attack(), None);
    let mut t = Tile::Cliff(CliffVariant::Left);
    assert_eq!(t.attack(), None);
    assert_eq!(t, Tile::Cliff(CliffVariant::Left));
}

#[test]
fn variant_interact_and_attack() {
    let mut w = WaterVariant::Left;
    assert_eq!(w.interact(), Interaction { item: None, thirst_maxed: true });
    assert_eq!(w.attack(), None);
    let mut c = CliffVariant::TopOpeningLeft;
    assert_eq!(c.interact(), Interaction { item: None, thirst_maxed: false });
    assert_eq!(c.attack(), None);
}

#[test]
fn tile_weights() {
    assert_eq!(Tile::Grass.weight(), 50);
    assert_eq!(Tile::Water(WaterVariant::Center).weight(), 40);
    assert_eq!(Tile::Water(WaterVariant::Top).weight(), 10);
    assert_eq!(Tile::Water(WaterVariant::InverseCornerBR).weight(), 10);
    assert_eq!(Tile::Bush.weight(), 1);
    assert_eq!(Tile::Cliff(CliffVariant::Center).weight(), 1);
    assert_eq!(CliffVariant::Center.weight(), 10);
}

#[test]
fn sheet_coords() {
    assert_eq!(Tile::BerryBush.sheet_coords(), Some((9, 0)));
    assert_eq!(Tile::Bush.sheet_coords(), Some((9, 1)));
    assert_eq!(Tile::Grass.sheet_coords(), None);
    assert_eq!(Tile::TreeTrunk.sheet_coords(), None);
    assert_eq!(Tile::Water(WaterVariant::Center).sheet_coords(), Some((3, 8)));
    assert_eq!(Tile::Water(WaterVariant::InverseCornerBL).sheet_coords(), Some((3, 11)));
    assert_eq!(Tile::Cliff(CliffVariant::TopLeft).sheet_coords(), Some((2, 0)));
    assert_eq!(Tile::Cliff(CliffVariant::TopOpeningRight).sheet_coords(), Some((4, 5)));
}

#[test]
fn opposite_directions() {
    for d in [Direction::North, Direction::East, Direction::South, Direction::West] {
        assert_ne!(d.opposite(), d);
        assert_eq!(d.opposite().opposite(), d);
    }
    assert_eq!(Direction::North.opposite(), Direction::South);
    assert_eq!(Direction::East.opposite(), Direction::West);
}

#[test]
fn water_hitboxes() {
    assert!(WaterVariant::Center.hitbox().is_empty());
    assert_eq!(WaterVariant::Top.hitbox(), vec![HalfTileRect { x: 0, y: 1, w: 2, h: 1 }]);
    assert_eq!(
        WaterVariant::InverseCornerTL.hitbox(),
        vec![HalfTileRect { x: 1, y: 0, w: 1, h: 1 }, HalfTileRect { x: 0, y: 1, w: 2, h: 1 }]
    );
}

#[test]
fn hitboxes_inside_tile() {
    let waters = [
        WaterVariant::Center, WaterVariant::TopLeft, WaterVariant::Top, WaterVariant::TopRight,
        WaterVariant::Right, WaterVariant::BottomRight, WaterVariant::Bottom, WaterVariant::BottomLeft,
        WaterVariant::Left, WaterVariant::InverseCornerTR, WaterVariant::InverseCornerTL,
        WaterVariant::InverseCornerBL, WaterVariant::InverseCornerBR,
    ];
    for w in waters {
        for r in w.hitbox() {
            assert!(r.x + r.w <= 2 && r.y + r.h <= 2);
        }
    }
    for c in [CliffVariant::Center, CliffVariant::InverseCornerTR, CliffVariant::LeftOpeningUp, CliffVariant::Bottom] {
        let h = c.hitbox();
        assert_eq!(h.len(), 1);
        assert!(h[0].x + h[0].w <= 2 && h[0].y + h[0].h <= 2);
    }
    assert_eq!(CliffVariant::Center.hitbox(), vec![HalfTileRect { x: 0, y: 0, w: 0, h: 0 }]);
    assert_eq!(CliffVariant::InverseCornerBL.hitbox(), vec![HalfTileRect { x: 0, y: 0, w: 2, h: 2 }]);
}
