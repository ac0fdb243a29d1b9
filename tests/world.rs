use adventure::entity::{Enemy, Item, Path};
use adventure::room::Room;
use adventure::world::{World, WorldError};

fn coin() -> Item {
    Item::new("coin", "A coin glints on the floor.", "A gold coin.")
}

fn chest() -> Item {
    let mut c = Item::new("chest", "A chest stands in the corner.", "An oak chest.");
    c.contents = Some(vec![coin()]);
    c
}

fn path(dir: &str, target: &str, locked: bool, closed: bool) -> Path {
    Path {
        direction: dir.to_string(),
        target: target.to_string(),
        inspection: format!("A way {}.", dir),
        locked,
        closed,
    }
}

fn wolf(hp: i32) -> Enemy {
    Enemy {
        name: "wolf".to_string(),
        inspection: "A grey wolf.".to_string(),
        hp,
        loot: vec![Item::new("pelt", "A pelt lies here.", "A wolf pelt.")],
    }
}

fn world() -> World {
    let mut cave = Room::new("cave", "A damp cave.", vec![chest()]);
    cave.paths.push(path("north", "tunnel", true, true));
    cave.paths.push(path("east", "tunnel", false, true));
    cave.paths.push(path("west", "tunnel", false, false));
    let mut tunnel = Room::new("tunnel", "A narrow tunnel.", Vec::new());
    tunnel.enemies.push(wolf(10));
    tunnel.paths.push(path("south", "cave", false, false));
    World::new("cave", vec![cave, tunnel])
}

#[test]
fn locked_path_blocks_movement() {
    let mut w = world();
    assert_eq!(w.move_room("north"), Ok("The way is locked.".to_string()));
    assert_eq!(w.curr_room(), "cave");
    assert_eq!(w.open_path("north"), Ok("Opened.".to_string()));
    assert_eq!(w.move_room("north"), Ok("The way is locked.".to_string()));
    assert_eq!(w.curr_room(), "cave");
}

#[test]
fn closed_path_blocks_until_opened() {
    let mut w = world();
    assert_eq!(w.move_room("east"), Ok("The way is closed.".to_string()));
    assert_eq!(w.curr_room(), "cave");
    assert_eq!(w.open_path("east"), Ok("Opened.".to_string()));
    assert_eq!(w.move_room("east"), Ok("tunnel\nA narrow tunnel.\n".to_string()));
    assert_eq!(w.curr_room(), "tunnel");
}

#[test]
fn unknown_direction_cannot_be_taken() {
    let mut w = world();
    for _ in 0..3 {
        assert_eq!(w.move_room("up"), Ok("You cannot go that way.".to_string()));
        assert_eq!(w.curr_room(), "cave");
    }
}

#[test]
fn open_path_twice_reports_already_opened() {
    let mut w = world();
    assert_eq!(w.open_path("west"), Ok("The west is already opened.".to_string()));
    assert_eq!(w.open_path("west"), Ok("The west is already opened.".to_string()));
    assert_eq!(w.move_room("west"), Ok("tunnel\nA narrow tunnel.\n".to_string()));
}

#[test]
fn close_path_and_unknown_path() {
    let mut w = world();
    assert_eq!(w.close_path("west"), Ok("Closed.".to_string()));
    assert_eq!(w.close_path("west"), Ok("The west is already closed.".to_string()));
    assert_eq!(w.move_room("west"), Ok("The way is closed.".to_string()));
    assert_eq!(w.open_path("door"), Ok("There is no \"door\".".to_string()));
}

#[test]
fn look_lists_room_and_items() {
    let mut w = world();
    assert_eq!(
        w.look(),
        Ok("cave\nA damp cave.\nA chest stands in the corner.".to_string())
    );
    w.rooms_mut()[0].add_path("down", &"tunnel".to_string(), "A hole leads down.");
    assert_eq!(
        w.look(),
        Ok("cave\nA damp cave.\nA hole leads down.\nA chest stands in the corner.".to_string())
    );
    assert_eq!(w.move_room("down"), Ok("tunnel\nA narrow tunnel.\n".to_string()));
}

#[test]
fn missing_current_room_is_an_error() {
    let mut w = World::new("void", Vec::new());
    assert_eq!(w.look(), Err(WorldError::NoRoom));
    assert_eq!(w.move_room("north"), Err(WorldError::NoRoom));
    assert_eq!(w.open_path("north"), Err(WorldError::NoRoom));
    assert!(w.harm_enemy("wolf", "sword", Some(3)).is_err());
    assert!(w.give("coin").is_none());
    assert!(w.give_all().is_empty());
    assert_eq!(w.insert("drop", "coin", Some(coin())), Err(WorldError::NoRoom));
}

#[test]
fn killing_wolf_reports_loot_once() {
    let mut w = world();
    w.move_room("west").unwrap();
    let r = w.harm_enemy("wolf", "sword", Some(12)).unwrap();
    assert!(r.ok);
    assert_eq!(
        r.text,
        "You hit the wolf with your sword for 12 damage. It is dead.\nIt dropped:\n pelt,"
    );
    assert_eq!(w.inspect("wolf"), None);
    let again = w.harm_enemy("wolf", "sword", Some(12)).unwrap();
    assert!(!again.ok);
    assert_eq!(again.text, "There is no \"wolf\" here.");
    assert_eq!(w.inspect("pelt"), Some("A wolf pelt.".to_string()));
}

#[test]
fn wounding_wolf_keeps_it() {
    let mut w = world();
    w.move_room("west").unwrap();
    let r = w.harm_enemy("wolf", "sword", Some(4)).unwrap();
    assert!(r.ok);
    assert_eq!(r.text, "You hit the wolf with your sword for 4 damage.");
    assert_eq!(w.rooms_mut()[1].enemies[0].hp, 6);
    let r = w.harm_enemy("wolf", "sword", Some(6)).unwrap();
    assert_eq!(r.text, "You hit the wolf with your sword for 6 damage. It is dead.\nIt dropped:\n pelt,");
}

#[test]
fn harm_without_weapon_or_enemy() {
    let mut w = world();
    w.move_room("west").unwrap();
    let r = w.harm_enemy("wolf", "sword", None).unwrap();
    assert!(!r.ok);
    assert_eq!(r.text, "You do not have the \"sword\".");
    let r = w.harm_enemy("bear", "sword", Some(3)).unwrap();
    assert!(!r.ok);
    assert_eq!(r.text, "There is no \"bear\" here.");
    assert_eq!(w.inspect("wolf"), Some("A grey wolf.".to_string()));
    let r = w.harm_enemy("bear", "sword", None).unwrap();
    assert!(!r.ok);
    assert_eq!(r.text, "There is no \"bear\" here.");
}

#[test]
fn inspect_prefers_items_then_paths_then_enemies() {
    let mut w = world();
    assert_eq!(w.inspect("chest"), Some("An oak chest.".to_string()));
    assert_eq!(w.inspect("north"), Some("A way north.".to_string()));
    assert_eq!(w.inspect("nothing"), None);
    w.move_room("west").unwrap();
    assert_eq!(w.inspect("wolf"), Some("A grey wolf.".to_string()));
}

#[test]
fn give_from_chest_takes_coin_once() {
    let mut w = world();
    let c = w.give_from("coin", "chest").unwrap();
    assert_eq!(c.name, "coin");
    assert!(w.give_from("coin", "chest").is_none());
    assert!(w.give_from("coin", "barrel").is_none());
}

#[test]
fn give_all_empties_room() {
    let mut w = world();
    assert_eq!(w.insert("drop", "coin", Some(coin())), Ok("Dropped.".to_string()));
    let all = w.give_all();
    let names: Vec<String> = all.iter().map(|i| i.name.clone()).collect();
    assert_eq!(names, vec!["chest".to_string(), "coin".to_string()]);
    assert!(w.give_all().is_empty());
    assert_eq!(w.look(), Ok("cave\nA damp cave.\n".to_string()));
}

#[test]
fn give_and_insert_round_trip() {
    let mut w = world();
    let c = w.give("chest");
    assert!(c.is_some());
    assert!(w.give("chest").is_none());
    assert_eq!(
        w.insert("throw", "chest", c),
        Ok("You throw the chest across the room.".to_string())
    );
    assert_eq!(w.insert("drop", "lamp", None), Ok("You do not have the \"lamp\".".to_string()));
    assert!(w.give("chest").is_some());
}

#[test]
fn insert_into_container() {
    let mut w = world();
    let c = w.give_from("coin", "chest");
    assert_eq!(w.insert_into("coin", "chest", c), Ok("Placed.".to_string()));
    assert!(w.give_from("coin", "chest").is_some());
    assert_eq!(
        w.insert_into("coin", "barrel", Some(coin())),
        Ok("There is no \"barrel\" here.".to_string())
    );
    assert_eq!(w.insert_into("coin", "chest", None), Ok("You do not have the \"coin\".".to_string()));
    assert_eq!(
        w.insert_into("box", "chest", Some(chest())),
        Ok("A container does not fit in there.".to_string())
    );
    w.insert("drop", "coin", Some(coin())).unwrap();
    assert_eq!(
        w.insert_into("coin", "coin", Some(coin())),
        Ok("You can not put anything in there.".to_string())
    );
}
