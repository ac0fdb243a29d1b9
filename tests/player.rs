use adventure::entity::Item;
use adventure::player::Player;
use adventure::room::Room;
use adventure::world::World;
use adventure::text::int_text;

fn sword() -> Item {
    let mut s = Item::new("sword", "A sword lies here.", "A short sword.");
    s.damage = Some(12);
    s
}

fn lamp() -> Item {
    Item::new("lamp", "A lamp lies here.", "An oil lamp.")
}

#[test]
fn rest_from_five_of_ten() {
    let mut p = Player::new(10);
    p.hp = (5, 10);
    let msg = p.rest();
    assert!(p.hp() >= 6 && p.hp() <= 10);
    assert_eq!(p.hp_cap(), 10);
    let n = p.hp() - 5;
    assert_eq!(msg, format!("You regained {} HP for a total of ({} / 10) HP.", n, p.hp()));
}

#[test]
fn rest_at_full_health() {
    let mut p = Player::new(10);
    assert_eq!(p.rest(), "You already have full health.");
    assert_eq!(p.hp, (10, 10));
    assert_eq!(p.rest_cost(), 0);
}

#[test]
fn rest_with_exact_amounts() {
    let mut p = Player::new(10);
    p.hp = (5, 10);
    assert_eq!(p.rest_with(3), "You regained 3 HP for a total of (8 / 10) HP.");
    assert_eq!(p.rest_with(6), "You regained 2 HP for a total of (10 / 10) HP.");
    assert_eq!(p.rest_with(6), "You already have full health.");
    p.hp = (-3, 10);
    assert_eq!(p.rest_with(1), "You regained 1 HP for a total of (-2 / 10) HP.");
}

#[test]
fn rest_never_lowers_or_overshoots() {
    for start in 0..10 {
        let mut p = Player::new(10);
        p.hp = (start, 10);
        let cost = p.rest_cost();
        assert!((2000..=5000).contains(&cost));
        p.rest();
        assert!(p.hp() > start && p.hp() <= 10 && p.hp() <= start + 6);
    }
}

#[test]
fn status_and_damage() {
    let mut p = Player::new(10);
    assert_eq!(p.status(), "You have (10 / 10) HP.");
    p.take_damage(14);
    assert_eq!(p.hp, (-4, 10));
    assert_eq!(p.status(), "You have (-4 / 10) HP.");
}

#[test]
fn inventory_listing() {
    let mut p = Player::new(10);
    assert_eq!(p.inventory(), "You are empty-handed.");
    assert_eq!(p.take("sword", Some(sword())), "Taken.");
    assert_eq!(p.take("lamp", Some(lamp())), "Taken.");
    assert_eq!(p.inventory(), "You are carrying:\n  sword\n  lamp");
    assert_eq!(p.take("rope", None), "There is no \"rope\" here.");
}

#[test]
fn take_all_and_remove() {
    let mut p = Player::new(10);
    assert_eq!(p.take_all(vec![lamp(), sword(), lamp()]), "Taken.");
    assert_eq!(p.inventory(), "You are carrying:\n  lamp\n  sword");
    let l = p.remove("lamp").unwrap();
    assert_eq!(l.name, "lamp");
    assert!(p.remove("lamp").is_none());
    assert_eq!(p.inventory(), "You are carrying:\n  sword");
}

#[test]
fn attack_with_carried_weapon() {
    let mut p = Player::new(10);
    assert_eq!(p.attack("sword"), None);
    assert!(!p.in_combat);
    p.take("sword", Some(sword()));
    assert_eq!(p.attack("sword"), Some(12));
    assert!(p.in_combat);
}

#[test]
fn inspect_self_and_items() {
    let mut p = Player::new(7);
    p.take("lamp", Some(lamp()));
    assert_eq!(p.inspect("me"), Some("You have (7 / 7) HP.".to_string()));
    assert_eq!(p.inspect("self"), Some("You have (7 / 7) HP.".to_string()));
    assert_eq!(p.inspect("myself"), Some("You have (7 / 7) HP.".to_string()));
    assert_eq!(p.inspect("lamp"), Some("An oil lamp.".to_string()));
    assert_eq!(p.inspect("rope"), None);
}

#[test]
fn equip_is_not_available() {
    let mut p = Player::new(10);
    p.take("sword", Some(sword()));
    assert_eq!(p.equip("sword"), "TODO: equip \"sword\"");
    assert_eq!(p.main_hand, None);
}

#[test]
fn negative_damage_adds_hit_points() {
    let mut p = Player::new(10);
    p.hp = (4, 10);
    p.take_damage(-3);
    assert_eq!(p.hp, (7, 10));
}

#[test]
fn rest_at_full_health_keeps_everything() {
    let mut p = Player::new(10);
    p.take("lamp", Some(lamp()));
    p.in_combat = true;
    assert_eq!(p.rest(), "You already have full health.");
    assert_eq!(p.hp, (10, 10));
    assert!(p.in_combat);
    assert_eq!(p.inventory(), "You are carrying:\n  lamp");
}

#[test]
fn decimal_text() {
    assert_eq!(int_text(0), "0");
    assert_eq!(int_text(42), "42");
    assert_eq!(int_text(-305), "-305");
    assert_eq!(int_text(i32::MIN), "-2147483648");
    assert_eq!(int_text(i32::MAX), "2147483647");
}

#[test]
fn moving_items_keeps_count() {
    let mut w = World::new("hall", vec![Room::new("hall", "A hall.", vec![lamp(), sword()])]);
    let mut p = Player::new(10);
    let it = w.give("lamp");
    p.take("lamp", it);
    assert_eq!(p.inventory(), "You are carrying:\n  lamp");
    assert!(w.give("lamp").is_none());
    let all = w.give_all();
    p.take_all(all);
    assert_eq!(p.inventory(), "You are carrying:\n  lamp\n  sword");
    let back = p.remove("sword");
    w.insert("drop", "sword", back).unwrap();
    assert_eq!(p.inventory(), "You are carrying:\n  lamp");
    assert_eq!(w.look(), Ok("hall\nA hall.\nA sword lies here.".to_string()));
}
