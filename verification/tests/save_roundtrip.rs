//! The save image round-trips: serializing a session and reading the word
//! stream back restores the map tiles, every entity field, the inventory and
//! the dungeon depth, with the player still at index 0.

use roguelike::color::Color;
use roguelike::constants::{MAP_HEIGHT, MAP_WIDTH};
use roguelike::game::Game;
use roguelike::objects::{Ai, DeathCallback, Equipment, Fighter, Item, Object, Slot};
use roguelike::rng::RngState;
use roguelike::mapgen::make_map;
use roguelike::save::save_state;
use roguelike::tile::{walled_map, Tile};

struct Reader<'a> {
    words: &'a [u32],
    pos: usize,
}

impl<'a> Reader<'a> {
    fn word(&mut self) -> u32 {
        let w = self.words[self.pos];
        self.pos += 1;
        w
    }

    fn signed(&mut self) -> i32 {
        (self.word() as i64 - 0x8000_0000) as i32
    }

    fn boolean(&mut self) -> bool {
        match self.word() {
            0 => false,
            1 => true,
            other => panic!("not a boolean word: {}", other),
        }
    }

    fn character(&mut self) -> char {
        char::from_u32(self.word()).expect("not a scalar value")
    }

    fn string(&mut self) -> String {
        let n = self.word() as usize;
        let mut s = String::new();
        for _ in 0..n {
            s.push(self.character());
        }
        s
    }

    fn color(&mut self) -> Color {
        match self.word() {
            0 => Color::Black,
            1 => Color::White,
            2 => Color::Red,
            3 => Color::DarkRed,
            4 => Color::DarkerRed,
            5 => Color::LightRed,
            6 => Color::Green,
            7 => Color::LightGreen,
            8 => Color::DesaturatedGreen,
            9 => Color::DarkerGreen,
            10 => Color::Yellow,
            11 => Color::LightYellow,
            12 => Color::Orange,
            13 => Color::DarkerOrange,
            14 => Color::LightBlue,
            15 => Color::Sky,
            16 => Color::Violet,
            17 => Color::LightViolet,
            18 => Color::LightCyan,
            19 => Color::LightGrey,
            20 => Color::DesaturatedFuchsia,
            21 => Color::Gold,
            other => panic!("not a colour word: {}", other),
        }
    }

    fn fighter(&mut self) -> Fighter {
        let hp = self.signed();
        let base_defense = self.signed();
        let base_power = self.signed();
        let base_max_hp = self.signed();
        let xp = self.signed();
        let on_death = match self.word() {
            0 => DeathCallback::Player,
            _ => DeathCallback::Monster,
        };
        Fighter { hp, base_defense, base_power, base_max_hp, xp, on_death }
    }

    fn equipment(&mut self) -> Equipment {
        let slot = match self.word() {
            0 => Slot::LeftHand,
            1 => Slot::RightHand,
            _ => Slot::Head,
        };
        let equipped = self.boolean();
        let power_bonus = self.signed();
        let defense_bonus = self.signed();
        let max_hp_bonus = self.signed();
        Equipment { slot, equipped, power_bonus, defense_bonus, max_hp_bonus }
    }

    fn ai(&mut self) -> Ai {
        match self.word() {
            0 => Ai::Basic,
            1 => {
                let previous = self.ai();
                let num_turns = self.signed();
                Ai::Confused { previous_ai: Box::new(previous), num_turns }
            },
            other => panic!("not a decision-state tag: {}", other),
        }
    }

    fn item(&mut self) -> Item {
        match self.word() {
            0 => Item::Heal,
            1 => Item::Lightning,
            2 => Item::Confuse,
            3 => Item::Fireball,
            4 => Item::Sword,
            _ => Item::Shield,
        }
    }

    fn object(&mut self) -> Object {
        let x = self.signed();
        let y = self.signed();
        let name = self.string();
        let blocks = self.boolean();
        let alive = self.boolean();
        let always_visible = self.boolean();
        let glyph = self.character();
        let color = self.color();
        let level = self.signed();
        let fighter = if self.word() == 1 { Some(self.fighter()) } else { None };
        let ai = if self.word() == 1 { Some(self.ai()) } else { None };
        let item = if self.word() == 1 { Some(self.item()) } else { None };
        let equipment = if self.word() == 1 { Some(self.equipment()) } else { None };
        let mut o = Object::new(x, y, glyph, &name, color, blocks);
        o.alive = alive;
        o.always_visible = always_visible;
        o.level = level;
        o.fighter = fighter;
        o.ai = ai;
        o.item = item;
        o.equipment = equipment;
        o
    }

    fn session(&mut self) -> (Game, Vec<Object>) {
        let ncols = self.word() as usize;
        let mut map = Vec::new();
        for _ in 0..ncols {
            let nrows = self.word() as usize;
            let mut col = Vec::new();
            for _ in 0..nrows {
                let blocked = self.boolean();
                let block_sight = self.boolean();
                let explored = self.boolean();
                col.push(Tile { blocked, block_sight, explored });
            }
            map.push(col);
        }
        let nmsgs = self.word() as usize;
        let mut log = Vec::new();
        for _ in 0..nmsgs {
            let text = self.string();
            let color = self.color();
            log.push((text, color));
        }
        let ninv = self.word() as usize;
        let mut inventory = Vec::new();
        for _ in 0..ninv {
            inventory.push(self.object());
        }
        let dungeon_level = self.word();
        let nstore = self.word() as usize;
        let mut store = Vec::new();
        for _ in 0..nstore {
            store.push(self.object());
        }
        (Game { map, log, inventory, dungeon_level }, store)
    }
}

fn sample_session() -> (Game, Vec<Object>) {
    let mut player = Object::new(3, 4, '@', "player", Color::White, true);
    player.alive = true;
    player.level = 2;
    player.fighter = Some(Fighter {
        hp: 87,
        base_max_hp: 120,
        base_defense: 2,
        base_power: 5,
        xp: 75,
        on_death: DeathCallback::Player,
    });
    let mut orc = Object::new(9, 9, 'o', "orc", Color::DesaturatedGreen, true);
    orc.alive = true;
    orc.fighter = Some(Fighter {
        hp: 20,
        base_max_hp: 20,
        base_defense: 0,
        base_power: 4,
        xp: 35,
        on_death: DeathCallback::Monster,
    });
    orc.ai = Some(Ai::Confused {
        previous_ai: Box::new(Ai::Basic),
        num_turns: 6,
    });
    let mut stairs = Object::new(11, 12, '<', "stairs", Color::White, false);
    stairs.always_visible = true;
    let mut sword = Object::new(0, 0, '/', "sword", Color::Sky, false);
    sword.item = Some(Item::Sword);
    sword.equipment = Some(Equipment {
        slot: Slot::RightHand,
        equipped: true,
        power_bonus: 3,
        defense_bonus: 0,
        max_hp_bonus: 0,
    });
    let mut potion = Object::new(0, 0, '!', "healing potion", Color::Violet, false);
    potion.item = Some(Item::Heal);
    let mut map = walled_map();
    map[3][4] = Tile { blocked: false, block_sight: false, explored: true };
    map[9][9] = Tile::empty();
    let game = Game {
        map,
        log: vec![
            ("You picked up a sword!".to_string(), Color::Green),
            ("orc attacks player for 2 hit points.".to_string(), Color::DesaturatedFuchsia),
        ],
        inventory: vec![sword, potion],
        dungeon_level: 3,
    };
    (game, vec![player, orc, stairs])
}

#[test]
fn save_round_trips_deeply() {
    let (game, objects) = sample_session();
    let words = save_state(&game, &objects);
    let mut reader = Reader { words: &words, pos: 0 };
    let (game2, objects2) = reader.session();
    assert_eq!(reader.pos, words.len());
    // deep equality of map tiles
    assert_eq!(game.map.len(), game2.map.len());
    for x in 0..game.map.len() {
        assert_eq!(game.map[x], game2.map[x]);
    }
    // message log, inventory and depth
    assert_eq!(game.log, game2.log);
    assert_eq!(game.inventory, game2.inventory);
    assert_eq!(game.dungeon_level, game2.dungeon_level);
    // every entity field, the player staying at index 0
    assert_eq!(objects, objects2);
    assert_eq!(objects2[0].name, "player");
    assert_eq!(objects2.len(), 3);
}

#[test]
fn generated_dungeon_round_trips() {
    let mut player = Object::new(1, 1, '@', "player", Color::White, true);
    player.alive = true;
    player.fighter = Some(Fighter {
        hp: 100,
        base_max_hp: 100,
        base_defense: 1,
        base_power: 4,
        xp: 0,
        on_death: DeathCallback::Player,
    });
    let mut objects = vec![player];
    let mut rng = RngState::new(99);
    let (map, _rooms) = make_map(&mut objects, 2, &mut rng);
    assert!(map.len() == MAP_WIDTH as usize && map[0].len() == MAP_HEIGHT as usize);
    let game = Game { map, log: Vec::new(), inventory: Vec::new(), dungeon_level: 2 };
    let words = save_state(&game, &objects);
    let mut reader = Reader { words: &words, pos: 0 };
    let (game2, objects2) = reader.session();
    assert_eq!(reader.pos, words.len());
    assert_eq!(game.map, game2.map);
    assert_eq!(objects, objects2);
    assert_eq!(objects2[0].name, "player");
}
