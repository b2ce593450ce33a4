use bevy::ecs::entity::Entity;
use primitive_engineering::plugins::craft::resources::crafts_registry::crafts::simple::SimpleCraft;
use primitive_engineering::plugins::craft::systems::crafting::fire::{fire_branches, BRANCHES_COUNT};

fn stone_axe() -> SimpleCraft {
    SimpleCraft {
        id: "stone_axe".to_string(),
        items: vec![
            ("branch".to_string(), 1),
            ("rock".to_string(), 1),
            ("coarse_string".to_string(), 2),
        ],
    }
}

fn item(e: u32, id: &str) -> (Entity, String) {
    (Entity::from_raw(e), id.to_string())
}

#[test]
fn simple_craft_takes_every_required_item() {
    let craft = stone_axe();
    let items = vec![
        item(1, "branch"),
        item(2, "flax"),
        item(3, "coarse_string"),
        item(4, "rock"),
        item(5, "coarse_string"),
        item(6, "branch"),
    ];
    let used = craft.check_internal(&items).unwrap();
    // One branch, one rock and two strings; the second branch stays.
    assert_eq!(
        used,
        vec![
            Entity::from_raw(1),
            Entity::from_raw(3),
            Entity::from_raw(4),
            Entity::from_raw(5)
        ]
    );
    assert_eq!(craft.id, "stone_axe");
}

#[test]
fn simple_craft_refuses_missing_or_short_items() {
    let craft = stone_axe();
    let short = vec![item(1, "branch"), item(3, "coarse_string"), item(4, "rock")];
    assert!(craft.check_internal(&short).is_none());
    let missing = vec![item(1, "branch"), item(3, "coarse_string"), item(5, "coarse_string")];
    assert!(craft.check_internal(&missing).is_none());
    assert!(craft.check_internal(&[]).is_none());
}

#[test]
fn zero_count_still_needs_one_item() {
    let craft = SimpleCraft {
        id: "odd".to_string(),
        items: vec![("flax".to_string(), 0)],
    };
    assert!(craft.check_internal(&[item(1, "rock")]).is_none());
    assert_eq!(craft.check_internal(&[item(1, "flax")]), Some(vec![]));
}

#[test]
fn fire_takes_the_first_five_branches() {
    let branch = "branch".to_string();
    let mut items = Vec::new();
    for i in 0..7u32 {
        items.push((if i % 3 == 0 { "rock" } else { "branch" }.to_string(), Entity::from_raw(i)));
    }
    // Branches: 1, 2, 4, 5 — only four.
    assert!(fire_branches(&items, &branch).is_none());
    items.push(("branch".to_string(), Entity::from_raw(7)));
    items.push(("branch".to_string(), Entity::from_raw(8)));
    let burnt = fire_branches(&items, &branch).unwrap();
    assert_eq!(burnt.len(), BRANCHES_COUNT);
    assert_eq!(
        burnt,
        vec![
            Entity::from_raw(1),
            Entity::from_raw(2),
            Entity::from_raw(4),
            Entity::from_raw(5),
            Entity::from_raw(7)
        ]
    );
}

#[test]
fn simple_craft_consumes_only_the_required_count() {
    let craft = SimpleCraft {
        id: "coarse_string".to_string(),
        items: vec![("flax".to_string(), 2)],
    };
    let items = vec![item(1, "flax"), item(2, "rock"), item(3, "flax"), item(4, "flax")];
    assert_eq!(
        craft.check_internal(&items),
        Some(vec![Entity::from_raw(1), Entity::from_raw(3)])
    );
}
