//! The persisted session image: a flat word stream that round-trips the
//! whole session — map tiles with their explored flags, the message log, the
//! inventory, the dungeon depth and the entity store, the player staying at
//! index 0.
//!
//! The engine defines what must round-trip; turning the words into a file is
//! the interactive layer's concern.

use vstd::prelude::*;

use crate::color::Color;
use crate::game::Game;
use crate::objects::{
    Ai, DeathCallback, Equipment, Fighter, Item, Object, Slot,
};
use crate::tile::{map_view, Tile};

verus! {

/// Relies on str::chars of core: it yields exactly the string's characters,
/// in order.
#[verifier::external_body]
fn string_chars(s: &String) -> (r: Vec<char>)
    ensures
        r@ == s@,
{
    s.chars().collect()
}



/// The word encoding a signed value, shifted to be non-negative.
pub open spec fn enc_i32(v: int) -> Seq<u32> {
    seq![(v + 0x8000_0000) as u32]
}

/// The word encoding a boolean.
pub open spec fn enc_bool(b: bool) -> Seq<u32> {
    seq![if b { 1u32 } else { 0u32 }]
}

/// The words encoding a character sequence: its length, then one code point
/// per character.
pub open spec fn enc_chars(s: Seq<char>) -> Seq<u32>
    decreases s.len(),
{
    if s.len() == 0 {
        Seq::empty()
    } else {
        seq![s.first() as u32] + enc_chars(s.drop_first())
    }
}

/// The words encoding a string: length prefix, then the characters.
pub open spec fn enc_string(s: Seq<char>) -> Seq<u32> {
    seq![s.len() as u32] + enc_chars(s)
}

/// The word encoding a colour tag.
pub open spec fn color_code(c: Color) -> u32 {
    match c {
        Color::Black => 0,
        Color::White => 1,
        Color::Red => 2,
        Color::DarkRed => 3,
        Color::DarkerRed => 4,
        Color::LightRed => 5,
        Color::Green => 6,
        Color::LightGreen => 7,
        Color::DesaturatedGreen => 8,
        Color::DarkerGreen => 9,
        Color::Yellow => 10,
        Color::LightYellow => 11,
        Color::Orange => 12,
        Color::DarkerOrange => 13,
        Color::LightBlue => 14,
        Color::Sky => 15,
        Color::Violet => 16,
        Color::LightViolet => 17,
        Color::LightCyan => 18,
        Color::LightGrey => 19,
        Color::DesaturatedFuchsia => 20,
        Color::Gold => 21,
    }
}

/// The colour with a given code, if any.
pub open spec fn color_of_code(v: u32) -> Option<Color> {
    if v == 0 {
        Some(Color::Black)
    } else if v == 1 {
        Some(Color::White)
    } else if v == 2 {
        Some(Color::Red)
    } else if v == 3 {
        Some(Color::DarkRed)
    } else if v == 4 {
        Some(Color::DarkerRed)
    } else if v == 5 {
        Some(Color::LightRed)
    } else if v == 6 {
        Some(Color::Green)
    } else if v == 7 {
        Some(Color::LightGreen)
    } else if v == 8 {
        Some(Color::DesaturatedGreen)
    } else if v == 9 {
        Some(Color::DarkerGreen)
    } else if v == 10 {
        Some(Color::Yellow)
    } else if v == 11 {
        Some(Color::LightYellow)
    } else if v == 12 {
        Some(Color::Orange)
    } else if v == 13 {
        Some(Color::DarkerOrange)
    } else if v == 14 {
        Some(Color::LightBlue)
    } else if v == 15 {
        Some(Color::Sky)
    } else if v == 16 {
        Some(Color::Violet)
    } else if v == 17 {
        Some(Color::LightViolet)
    } else if v == 18 {
        Some(Color::LightCyan)
    } else if v == 19 {
        Some(Color::LightGrey)
    } else if v == 20 {
        Some(Color::DesaturatedFuchsia)
    } else if v == 21 {
        Some(Color::Gold)
    } else {
        None
    }
}

/// Colour codes decode back to the colour they encode.
pub proof fn lemma_color_roundtrip(c: Color)
    ensures
        color_of_code(color_code(c)) == Some(c),
{
}

/// Reads one word.
pub open spec fn dec_word(s: Seq<u32>) -> Option<(u32, Seq<u32>)> {
    if s.len() == 0 {
        None
    } else {
        Some((s.first(), s.drop_first()))
    }
}

/// One word decodes to itself.
pub proof fn lemma_rt_word(w: u32, rest: Seq<u32>)
    ensures
        dec_word(seq![w] + rest) == Some((w, rest)),
{
    assert((seq![w] + rest).first() == w);
    assert((seq![w] + rest).drop_first() =~= rest);
}

/// Reads one signed value.
pub open spec fn dec_i32(s: Seq<u32>) -> Option<(i32, Seq<u32>)> {
    match dec_word(s) {
        Some((w, r)) => Some(((w - 0x8000_0000) as i32, r)),
        None => None,
    }
}

/// A signed value round-trips through its shifted word.
pub proof fn lemma_rt_i32(v: i32, rest: Seq<u32>)
    ensures
        dec_i32(enc_i32(v as int) + rest) == Some((v, rest)),
{
    lemma_rt_word((v + 0x8000_0000) as u32, rest);
    assert(enc_i32(v as int) + rest == seq![(v + 0x8000_0000) as u32] + rest);
}

/// Reads one boolean.
pub open spec fn dec_bool(s: Seq<u32>) -> Option<(bool, Seq<u32>)> {
    match dec_word(s) {
        Some((w, r)) => if w == 0 {
            Some((false, r))
        } else if w == 1 {
            Some((true, r))
        } else {
            None
        },
        None => None,
    }
}

/// A boolean round-trips through its word.
pub proof fn lemma_rt_bool(b: bool, rest: Seq<u32>)
    ensures
        dec_bool(enc_bool(b) + rest) == Some((b, rest)),
{
    lemma_rt_word(if b { 1u32 } else { 0u32 }, rest);
}

/// Reads one character: a word that must be a Unicode scalar.
pub open spec fn dec_char(s: Seq<u32>) -> Option<(char, Seq<u32>)> {
    match dec_word(s) {
        Some((w, r)) => if w < 0xD800 || (0xE000 <= w && w < 0x110000) {
            Some((w as char, r))
        } else {
            None
        },
        None => None,
    }
}

/// A character round-trips through its code point.
pub proof fn lemma_rt_char(c: char, rest: Seq<u32>)
    ensures
        dec_char(seq![c as u32] + rest) == Some((c, rest)),
{
    lemma_rt_word(c as u32, rest);
    vstd::utf8::char_is_scalar(c);
    vstd::utf8::char_u32_cast(c, c as u32);
}

/// Reads `n` characters.
pub open spec fn dec_chars(s: Seq<u32>, n: nat) -> Option<(Seq<char>, Seq<u32>)>
    decreases n,
{
    if n == 0 {
        Some((Seq::empty(), s))
    } else {
        match dec_char(s) {
            Some((c, r)) => match dec_chars(r, (n - 1) as nat) {
                Some((cs, r2)) => Some((seq![c] + cs, r2)),
                None => None,
            },
            None => None,
        }
    }
}

/// A character sequence round-trips through its code points.
pub proof fn lemma_rt_chars(cs: Seq<char>, rest: Seq<u32>)
    ensures
        dec_chars(enc_chars(cs) + rest, cs.len()) == Some((cs, rest)),
    decreases cs.len(),
{
    if cs.len() == 0 {
        assert(enc_chars(cs) + rest =~= rest);
    } else {
        let c = cs.first();
        let tail = cs.drop_first();
        assert(enc_chars(cs) + rest =~= seq![c as u32] + (enc_chars(tail) + rest));
        lemma_rt_char(c, enc_chars(tail) + rest);
        lemma_rt_chars(tail, rest);
        assert(seq![c] + tail =~= cs);
    }
}

/// Reads a length-prefixed string.
pub open spec fn dec_string(s: Seq<u32>) -> Option<(Seq<char>, Seq<u32>)> {
    match dec_word(s) {
        Some((n, r)) => dec_chars(r, n as nat),
        None => None,
    }
}

/// A string round-trips through its length prefix and code points.
pub proof fn lemma_rt_string(cs: Seq<char>, rest: Seq<u32>)
    requires
        cs.len() <= 0xFFFF_FFFF,
    ensures
        dec_string(enc_string(cs) + rest) == Some((cs, rest)),
{
    assert(enc_string(cs) + rest =~= seq![cs.len() as u32] + (enc_chars(cs) + rest));
    lemma_rt_word(cs.len() as u32, enc_chars(cs) + rest);
    lemma_rt_chars(cs, rest);
}

/// Reads one colour tag.
pub open spec fn dec_color(s: Seq<u32>) -> Option<(Color, Seq<u32>)> {
    match dec_word(s) {
        Some((w, r)) => match color_of_code(w) {
            Some(c) => Some((c, r)),
            None => None,
        },
        None => None,
    }
}

/// A colour round-trips through its tag word.
pub proof fn lemma_rt_color(c: Color, rest: Seq<u32>)
    ensures
        dec_color(seq![color_code(c)] + rest) == Some((c, rest)),
{
    lemma_rt_word(color_code(c), rest);
    lemma_color_roundtrip(c);
}

/// The word encoding a slot.
pub open spec fn slot_code(s: Slot) -> u32 {
    match s {
        Slot::LeftHand => 0,
        Slot::RightHand => 1,
        Slot::Head => 2,
    }
}

/// Reads one slot tag.
pub open spec fn dec_slot(s: Seq<u32>) -> Option<(Slot, Seq<u32>)> {
    match dec_word(s) {
        Some((w, r)) => if w == 0 {
            Some((Slot::LeftHand, r))
        } else if w == 1 {
            Some((Slot::RightHand, r))
        } else if w == 2 {
            Some((Slot::Head, r))
        } else {
            None
        },
        None => None,
    }
}

/// The word encoding an item tag.
pub open spec fn item_code(i: Item) -> u32 {
    match i {
        Item::Heal => 0,
        Item::Lightning => 1,
        Item::Confuse => 2,
        Item::Fireball => 3,
        Item::Sword => 4,
        Item::Shield => 5,
    }
}

/// Reads one item tag.
pub open spec fn dec_item(s: Seq<u32>) -> Option<(Item, Seq<u32>)> {
    match dec_word(s) {
        Some((w, r)) => if w == 0 {
            Some((Item::Heal, r))
        } else if w == 1 {
            Some((Item::Lightning, r))
        } else if w == 2 {
            Some((Item::Confuse, r))
        } else if w == 3 {
            Some((Item::Fireball, r))
        } else if w == 4 {
            Some((Item::Sword, r))
        } else if w == 5 {
            Some((Item::Shield, r))
        } else {
            None
        },
        None => None,
    }
}

/// The word encoding a death procedure tag.
pub open spec fn death_code(d: DeathCallback) -> u32 {
    match d {
        DeathCallback::Player => 0,
        DeathCallback::Monster => 1,
    }
}

/// Reads one death procedure tag.
pub open spec fn dec_death(s: Seq<u32>) -> Option<(DeathCallback, Seq<u32>)> {
    match dec_word(s) {
        Some((w, r)) => if w == 0 {
            Some((DeathCallback::Player, r))
        } else if w == 1 {
            Some((DeathCallback::Monster, r))
        } else {
            None
        },
        None => None,
    }
}

/// The words encoding a fighter.
#[verifier::opaque]
pub open spec fn enc_fighter(f: Fighter) -> Seq<u32> {
    enc_i32(f.hp as int) + enc_i32(f.base_defense as int) + enc_i32(f.base_power as int)
        + enc_i32(f.base_max_hp as int) + enc_i32(f.xp as int) + seq![death_code(f.on_death)]
}

/// Reads one fighter.
#[verifier::opaque]
pub open spec fn dec_fighter(s: Seq<u32>) -> Option<(Fighter, Seq<u32>)> {
    match dec_i32(s) {
        Some((hp, s1)) => match dec_i32(s1) {
            Some((base_defense, s2)) => match dec_i32(s2) {
                Some((base_power, s3)) => match dec_i32(s3) {
                    Some((base_max_hp, s4)) => match dec_i32(s4) {
                        Some((xp, s5)) => match dec_death(s5) {
                            Some((on_death, s6)) => Some(
                                (
                                    Fighter {
                                        hp,
                                        base_defense,
                                        base_power,
                                        base_max_hp,
                                        xp,
                                        on_death,
                                    },
                                    s6,
                                ),
                            ),
                            None => None,
                        },
                        None => None,
                    },
                    None => None,
                },
                None => None,
            },
            None => None,
        },
        None => None,
    }
}

/// A fighter round-trips field by field.
pub proof fn lemma_rt_fighter(f: Fighter, rest: Seq<u32>)
    ensures
        dec_fighter(enc_fighter(f) + rest) == Some((f, rest)),
{
    reveal(enc_fighter);
    reveal(dec_fighter);
    let r5 = seq![death_code(f.on_death)] + rest;
    let r4 = enc_i32(f.xp as int) + r5;
    let r3 = enc_i32(f.base_max_hp as int) + r4;
    let r2 = enc_i32(f.base_power as int) + r3;
    let r1 = enc_i32(f.base_defense as int) + r2;
    assert(enc_fighter(f) + rest =~= enc_i32(f.hp as int) + r1);
    assert(r1 =~= enc_i32(f.base_defense as int) + r2);
    assert(r2 =~= enc_i32(f.base_power as int) + r3);
    assert(r3 =~= enc_i32(f.base_max_hp as int) + r4);
    assert(r4 =~= enc_i32(f.xp as int) + r5);
    lemma_rt_i32(f.hp, r1);
    lemma_rt_i32(f.base_defense, r2);
    lemma_rt_i32(f.base_power, r3);
    lemma_rt_i32(f.base_max_hp, r4);
    lemma_rt_i32(f.xp, r5);
    lemma_rt_word(death_code(f.on_death), rest);
}

/// The words encoding an equipment piece.
#[verifier::opaque]
pub open spec fn enc_equipment(e: Equipment) -> Seq<u32> {
    seq![slot_code(e.slot)] + enc_bool(e.equipped) + enc_i32(e.power_bonus as int) + enc_i32(
        e.defense_bonus as int,
    ) + enc_i32(e.max_hp_bonus as int)
}

/// Reads one equipment piece.
#[verifier::opaque]
pub open spec fn dec_equipment(s: Seq<u32>) -> Option<(Equipment, Seq<u32>)> {
    match dec_slot(s) {
        Some((slot, s1)) => match dec_bool(s1) {
            Some((equipped, s2)) => match dec_i32(s2) {
                Some((power_bonus, s3)) => match dec_i32(s3) {
                    Some((defense_bonus, s4)) => match dec_i32(s4) {
                        Some((max_hp_bonus, s5)) => Some(
                            (
                                Equipment {
                                    slot,
                                    equipped,
                                    power_bonus,
                                    defense_bonus,
                                    max_hp_bonus,
                                },
                                s5,
                            ),
                        ),
                        None => None,
                    },
                    None => None,
                },
                None => None,
            },
            None => None,
        },
        None => None,
    }
}

/// An equipment piece round-trips field by field.
pub proof fn lemma_rt_equipment(e: Equipment, rest: Seq<u32>)
    ensures
        dec_equipment(enc_equipment(e) + rest) == Some((e, rest)),
{
    reveal(enc_equipment);
    reveal(dec_equipment);
    let r4 = enc_i32(e.max_hp_bonus as int) + rest;
    let r3 = enc_i32(e.defense_bonus as int) + r4;
    let r2 = enc_i32(e.power_bonus as int) + r3;
    let r1 = enc_bool(e.equipped) + r2;
    assert(enc_equipment(e) + rest =~= seq![slot_code(e.slot)] + r1);
    assert(r1 =~= enc_bool(e.equipped) + r2);
    assert(r2 =~= enc_i32(e.power_bonus as int) + r3);
    assert(r3 =~= enc_i32(e.defense_bonus as int) + r4);
    lemma_rt_word(slot_code(e.slot), r1);
    lemma_rt_bool(e.equipped, r2);
    lemma_rt_i32(e.power_bonus, r3);
    lemma_rt_i32(e.defense_bonus, r4);
    lemma_rt_i32(e.max_hp_bonus, rest);
}

/// The words encoding a decision state: a tag, then for `Confused` the
/// wrapped state followed by the counter.
pub open spec fn enc_ai(ai: Ai) -> Seq<u32>
    decreases ai,
{
    match ai {
        Ai::Basic => seq![0u32],
        Ai::Confused { previous_ai, num_turns } => seq![1u32] + enc_ai(*previous_ai) + enc_i32(
            num_turns as int,
        ),
    }
}

/// Reads one decision state.
pub open spec fn dec_ai(s: Seq<u32>) -> Option<(Ai, Seq<u32>)>
    decreases s.len(),
{
    match dec_word(s) {
        Some((w, r)) => if w == 0 {
            Some((Ai::Basic, r))
        } else if w == 1 {
            if r.len() < s.len() {
                match dec_ai(r) {
                    Some((prev, r2)) => match dec_i32(r2) {
                        Some((n, r3)) => Some(
                            (Ai::Confused { previous_ai: Box::new(prev), num_turns: n }, r3),
                        ),
                        None => None,
                    },
                    None => None,
                }
            } else {
                None
            }
        } else {
            None
        },
        None => None,
    }
}

/// A decision state round-trips, wrapped states included.
pub proof fn lemma_rt_ai(ai: Ai, rest: Seq<u32>)
    ensures
        dec_ai(enc_ai(ai) + rest) == Some((ai, rest)),
    decreases ai,
{
    match ai {
        Ai::Basic => {
            lemma_rt_word(0u32, rest);
        },
        Ai::Confused { previous_ai, num_turns } => {
            let r1 = enc_ai(*previous_ai) + (enc_i32(num_turns as int) + rest);
            assert(enc_ai(ai) + rest =~= seq![1u32] + r1);
            lemma_rt_word(1u32, r1);
            lemma_rt_ai(*previous_ai, enc_i32(num_turns as int) + rest);
            lemma_rt_i32(num_turns, rest);
            assert((seq![1u32] + r1).drop_first() =~= r1);
        },
    }
}

/// The plain-value image of an entity: every field of `Object`, the name as
/// its character sequence.
pub struct ObjectModel {
    pub x: i32,
    pub y: i32,
    pub name: Seq<char>,
    pub blocks: bool,
    pub alive: bool,
    pub always_visible: bool,
    pub glyph: char,
    pub color: Color,
    pub level: i32,
    pub fighter: Option<Fighter>,
    pub ai: Option<Ai>,
    pub item: Option<Item>,
    pub equipment: Option<Equipment>,
}

/// The image of an entity; two entities are deeply equal exactly when their
/// images agree.
pub open spec fn model_of(o: Object) -> ObjectModel {
    ObjectModel {
        x: o.x,
        y: o.y,
        name: o.name@,
        blocks: o.blocks,
        alive: o.alive,
        always_visible: o.always_visible,
        glyph: o.glyph,
        color: o.color,
        level: o.level,
        fighter: o.fighter,
        ai: o.ai,
        item: o.item,
        equipment: o.equipment,
    }
}

/// The words encoding an optional fighter.
pub open spec fn enc_opt_fighter(f: Option<Fighter>) -> Seq<u32> {
    match f {
        Some(f) => seq![1u32] + enc_fighter(f),
        None => seq![0u32],
    }
}

/// Reads an optional fighter.
pub open spec fn dec_opt_fighter(s: Seq<u32>) -> Option<(Option<Fighter>, Seq<u32>)> {
    match dec_word(s) {
        Some((w, r)) => if w == 0 {
            Some((None, r))
        } else if w == 1 {
            match dec_fighter(r) {
                Some((f, r2)) => Some((Some(f), r2)),
                None => None,
            }
        } else {
            None
        },
        None => None,
    }
}

/// An optional fighter round-trips.
pub proof fn lemma_rt_opt_fighter(f: Option<Fighter>, rest: Seq<u32>)
    ensures
        dec_opt_fighter(enc_opt_fighter(f) + rest) == Some((f, rest)),
{
    match f {
        Some(fv) => {
            let r1 = enc_fighter(fv) + rest;
            assert(enc_opt_fighter(f) + rest =~= seq![1u32] + r1);
            lemma_rt_word(1u32, r1);
            lemma_rt_fighter(fv, rest);
        },
        None => {
            lemma_rt_word(0u32, rest);
        },
    }
}

/// The words encoding an optional decision state.
pub open spec fn enc_opt_ai(a: Option<Ai>) -> Seq<u32> {
    match a {
        Some(a) => seq![1u32] + enc_ai(a),
        None => seq![0u32],
    }
}

/// Reads an optional decision state.
pub open spec fn dec_opt_ai(s: Seq<u32>) -> Option<(Option<Ai>, Seq<u32>)> {
    match dec_word(s) {
        Some((w, r)) => if w == 0 {
            Some((None, r))
        } else if w == 1 {
            match dec_ai(r) {
                Some((a, r2)) => Some((Some(a), r2)),
                None => None,
            }
        } else {
            None
        },
        None => None,
    }
}

/// An optional decision state round-trips.
pub proof fn lemma_rt_opt_ai(a: Option<Ai>, rest: Seq<u32>)
    ensures
        dec_opt_ai(enc_opt_ai(a) + rest) == Some((a, rest)),
{
    match a {
        Some(av) => {
            let r1 = enc_ai(av) + rest;
            assert(enc_opt_ai(a) + rest =~= seq![1u32] + r1);
            lemma_rt_word(1u32, r1);
            lemma_rt_ai(av, rest);
        },
        None => {
            lemma_rt_word(0u32, rest);
        },
    }
}

/// The words encoding an optional item tag.
pub open spec fn enc_opt_item(i: Option<Item>) -> Seq<u32> {
    match i {
        Some(i) => seq![1u32, item_code(i)],
        None => seq![0u32],
    }
}

/// Reads an optional item tag.
pub open spec fn dec_opt_item(s: Seq<u32>) -> Option<(Option<Item>, Seq<u32>)> {
    match dec_word(s) {
        Some((w, r)) => if w == 0 {
            Some((None, r))
        } else if w == 1 {
            match dec_item(r) {
                Some((i, r2)) => Some((Some(i), r2)),
                None => None,
            }
        } else {
            None
        },
        None => None,
    }
}

/// An optional item tag round-trips.
pub proof fn lemma_rt_opt_item(i: Option<Item>, rest: Seq<u32>)
    ensures
        dec_opt_item(enc_opt_item(i) + rest) == Some((i, rest)),
{
    match i {
        Some(iv) => {
            let r1 = seq![item_code(iv)] + rest;
            assert(enc_opt_item(i) + rest =~= seq![1u32] + r1);
            lemma_rt_word(1u32, r1);
            lemma_rt_word(item_code(iv), rest);
        },
        None => {
            lemma_rt_word(0u32, rest);
        },
    }
}

/// The words encoding an optional equipment piece.
pub open spec fn enc_opt_equipment(e: Option<Equipment>) -> Seq<u32> {
    match e {
        Some(e) => seq![1u32] + enc_equipment(e),
        None => seq![0u32],
    }
}

/// Reads an optional equipment piece.
pub open spec fn dec_opt_equipment(s: Seq<u32>) -> Option<(Option<Equipment>, Seq<u32>)> {
    match dec_word(s) {
        Some((w, r)) => if w == 0 {
            Some((None, r))
        } else if w == 1 {
            match dec_equipment(r) {
                Some((e, r2)) => Some((Some(e), r2)),
                None => None,
            }
        } else {
            None
        },
        None => None,
    }
}

/// An optional equipment piece round-trips.
pub proof fn lemma_rt_opt_equipment(e: Option<Equipment>, rest: Seq<u32>)
    ensures
        dec_opt_equipment(enc_opt_equipment(e) + rest) == Some((e, rest)),
{
    match e {
        Some(ev) => {
            let r1 = enc_equipment(ev) + rest;
            assert(enc_opt_equipment(e) + rest =~= seq![1u32] + r1);
            lemma_rt_word(1u32, r1);
            lemma_rt_equipment(ev, rest);
        },
        None => {
            lemma_rt_word(0u32, rest);
        },
    }
}

/// The words encoding an entity's four capability fields.
pub open spec fn enc_caps(o: Object) -> Seq<u32> {
    enc_opt_fighter(o.fighter) + enc_opt_ai(o.ai) + enc_opt_item(o.item) + enc_opt_equipment(
        o.equipment,
    )
}

/// Reads the four capability fields.
pub open spec fn dec_caps(s: Seq<u32>) -> Option<
    ((Option<Fighter>, Option<Ai>, Option<Item>, Option<Equipment>), Seq<u32>),
> {
    match dec_opt_fighter(s) {
        Some((fighter, s1)) => match dec_opt_ai(s1) {
            Some((ai, s2)) => match dec_opt_item(s2) {
                Some((item, s3)) => match dec_opt_equipment(s3) {
                    Some((equipment, s4)) => Some(((fighter, ai, item, equipment), s4)),
                    None => None,
                },
                None => None,
            },
            None => None,
        },
        None => None,
    }
}

/// The capability fields round-trip.
pub proof fn lemma_rt_caps(o: Object, rest: Seq<u32>)
    ensures
        dec_caps(enc_caps(o) + rest) == Some(((o.fighter, o.ai, o.item, o.equipment), rest)),
{
    let rIt = enc_opt_equipment(o.equipment) + rest;
    let rAi = enc_opt_item(o.item) + rIt;
    let rFi = enc_opt_ai(o.ai) + rAi;
    assert(enc_caps(o) + rest =~= enc_opt_fighter(o.fighter) + rFi);
    assert(rFi =~= enc_opt_ai(o.ai) + rAi);
    assert(rAi =~= enc_opt_item(o.item) + rIt);
    lemma_rt_opt_fighter(o.fighter, rFi);
    lemma_rt_opt_ai(o.ai, rAi);
    lemma_rt_opt_item(o.item, rIt);
    lemma_rt_opt_equipment(o.equipment, rest);
}

/// The words encoding a whole entity.
#[verifier::opaque]
pub open spec fn enc_object(o: Object) -> Seq<u32> {
    enc_i32(o.x as int) + enc_i32(o.y as int) + enc_string(o.name@) + enc_bool(o.blocks)
        + enc_bool(o.alive) + enc_bool(o.always_visible) + seq![o.glyph as u32] + seq![
        color_code(o.color),
    ] + enc_i32(o.level as int) + enc_caps(o)
}

/// Reads one entity image.
#[verifier::opaque]
pub open spec fn dec_object(s: Seq<u32>) -> Option<(ObjectModel, Seq<u32>)> {
    match dec_i32(s) {
        Some((x, s1)) => match dec_i32(s1) {
            Some((y, s2)) => match dec_string(s2) {
                Some((name, s3)) => match dec_bool(s3) {
                    Some((blocks, s4)) => match dec_bool(s4) {
                        Some((alive, s5)) => match dec_bool(s5) {
                            Some((always_visible, s6)) => match dec_char(s6) {
                                Some((glyph, s7)) => match dec_color(s7) {
                                    Some((color, s8)) => match dec_i32(s8) {
                                        Some((level, s9)) => match dec_caps(s9) {
                                            Some((caps, s10)) => Some(
                                                (
                                                    ObjectModel {
                                                        x,
                                                        y,
                                                        name,
                                                        blocks,
                                                        alive,
                                                        always_visible,
                                                        glyph,
                                                        color,
                                                        level,
                                                        fighter: caps.0,
                                                        ai: caps.1,
                                                        item: caps.2,
                                                        equipment: caps.3,
                                                    },
                                                    s10,
                                                ),
                                            ),
                                            None => None,
                                        },
                                        None => None,
                                    },
                                    None => None,
                                },
                                None => None,
                            },
                            None => None,
                        },
                        None => None,
                    },
                    None => None,
                },
                None => None,
            },
            None => None,
        },
        None => None,
    }
}

/// A whole entity round-trips to its image.
#[verifier::rlimit(100)]
pub proof fn lemma_rt_object(o: Object, rest: Seq<u32>)
    requires
        o.name@.len() <= 0xFFFF_FFFF,
    ensures
        dec_object(enc_object(o) + rest) == Some((model_of(o), rest)),
{
    reveal(enc_object);
    reveal(dec_object);
    let rLv = enc_caps(o) + rest;
    let rCo = enc_i32(o.level as int) + rLv;
    let rGl = seq![color_code(o.color)] + rCo;
    let rAv = seq![o.glyph as u32] + rGl;
    let rAl = enc_bool(o.always_visible) + rAv;
    let rBl = enc_bool(o.alive) + rAl;
    let rNm = enc_bool(o.blocks) + rBl;
    let rY = enc_string(o.name@) + rNm;
    let rX = enc_i32(o.y as int) + rY;
    assert(enc_object(o) + rest =~= enc_i32(o.x as int) + rX);
    assert(rX =~= enc_i32(o.y as int) + rY);
    assert(rY =~= enc_string(o.name@) + rNm);
    assert(rNm =~= enc_bool(o.blocks) + rBl);
    assert(rBl =~= enc_bool(o.alive) + rAl);
    assert(rAl =~= enc_bool(o.always_visible) + rAv);
    assert(rAv =~= seq![o.glyph as u32] + rGl);
    assert(rGl =~= seq![color_code(o.color)] + rCo);
    assert(rCo =~= enc_i32(o.level as int) + rLv);
    lemma_rt_i32(o.x, rX);
    lemma_rt_i32(o.y, rY);
    lemma_rt_string(o.name@, rNm);
    lemma_rt_bool(o.blocks, rBl);
    lemma_rt_bool(o.alive, rAl);
    lemma_rt_bool(o.always_visible, rAv);
    lemma_rt_char(o.glyph, rGl);
    lemma_rt_color(o.color, rCo);
    lemma_rt_i32(o.level, rLv);
    lemma_rt_caps(o, rest);
}

/// The words encoding a sequence of entities, in order.
#[verifier::opaque]
pub open spec fn enc_objects(objs: Seq<Object>) -> Seq<u32>
    decreases objs.len(),
{
    if objs.len() == 0 {
        Seq::empty()
    } else {
        enc_object(objs.first()) + enc_objects(objs.drop_first())
    }
}

/// Reads `n` entity images.
pub open spec fn dec_objects(s: Seq<u32>, n: nat) -> Option<(Seq<ObjectModel>, Seq<u32>)>
    decreases n,
{
    if n == 0 {
        Some((Seq::empty(), s))
    } else {
        match dec_object(s) {
            Some((o, r)) => match dec_objects(r, (n - 1) as nat) {
                Some((os, r2)) => Some((seq![o] + os, r2)),
                None => None,
            },
            None => None,
        }
    }
}

/// The images of a sequence of entities.
pub open spec fn models_of(objs: Seq<Object>) -> Seq<ObjectModel> {
    objs.map_values(|o: Object| model_of(o))
}

/// Every entity name short enough to carry a length prefix.
pub open spec fn names_encodable(objs: Seq<Object>) -> bool {
    forall|i: int| 0 <= i < objs.len() ==> (#[trigger] objs[i]).name@.len() <= 0xFFFF_FFFF
}

/// A sequence of entities round-trips to its images, in order.
pub proof fn lemma_rt_objects(objs: Seq<Object>, rest: Seq<u32>)
    requires
        names_encodable(objs),
    ensures
        dec_objects(enc_objects(objs) + rest, objs.len()) == Some((models_of(objs), rest)),
    decreases objs.len(),
{
    reveal(enc_objects);
    if objs.len() == 0 {
        assert(enc_objects(objs) + rest =~= rest);
        assert(models_of(objs) =~= Seq::<ObjectModel>::empty());
    } else {
        let o = objs.first();
        let tail = objs.drop_first();
        assert(names_encodable(tail));
        assert(enc_objects(objs) + rest =~= enc_object(o) + (enc_objects(tail) + rest));
        lemma_rt_object(o, enc_objects(tail) + rest);
        lemma_rt_objects(tail, rest);
        assert(seq![model_of(o)] + models_of(tail) =~= models_of(objs));
    }
}

/// The words encoding one tile: passability, opacity, explored flag.
pub open spec fn enc_tile(t: Tile) -> Seq<u32> {
    enc_bool(t.blocked) + enc_bool(t.block_sight) + enc_bool(t.explored)
}

/// Reads one tile.
pub open spec fn dec_tile(s: Seq<u32>) -> Option<(Tile, Seq<u32>)> {
    match dec_bool(s) {
        Some((blocked, s1)) => match dec_bool(s1) {
            Some((block_sight, s2)) => match dec_bool(s2) {
                Some((explored, s3)) => Some((Tile { blocked, block_sight, explored }, s3)),
                None => None,
            },
            None => None,
        },
        None => None,
    }
}

/// A tile round-trips through its three flags.
pub proof fn lemma_rt_tile(t: Tile, rest: Seq<u32>)
    ensures
        dec_tile(enc_tile(t) + rest) == Some((t, rest)),
{
    let r2 = enc_bool(t.explored) + rest;
    let r1 = enc_bool(t.block_sight) + r2;
    assert(enc_tile(t) + rest =~= enc_bool(t.blocked) + r1);
    assert(r1 =~= enc_bool(t.block_sight) + r2);
    lemma_rt_bool(t.blocked, r1);
    lemma_rt_bool(t.block_sight, r2);
    lemma_rt_bool(t.explored, rest);
}

/// The words encoding a column of tiles.
pub open spec fn enc_tiles(col: Seq<Tile>) -> Seq<u32>
    decreases col.len(),
{
    if col.len() == 0 {
        Seq::empty()
    } else {
        enc_tile(col.first()) + enc_tiles(col.drop_first())
    }
}

/// Reads `n` tiles.
pub open spec fn dec_tiles(s: Seq<u32>, n: nat) -> Option<(Seq<Tile>, Seq<u32>)>
    decreases n,
{
    if n == 0 {
        Some((Seq::empty(), s))
    } else {
        match dec_tile(s) {
            Some((t, r)) => match dec_tiles(r, (n - 1) as nat) {
                Some((ts, r2)) => Some((seq![t] + ts, r2)),
                None => None,
            },
            None => None,
        }
    }
}

/// A column of tiles round-trips, in order.
pub proof fn lemma_rt_tiles(col: Seq<Tile>, rest: Seq<u32>)
    ensures
        dec_tiles(enc_tiles(col) + rest, col.len()) == Some((col, rest)),
    decreases col.len(),
{
    if col.len() == 0 {
        assert(enc_tiles(col) + rest =~= rest);
    } else {
        let t = col.first();
        let tail = col.drop_first();
        assert(enc_tiles(col) + rest =~= enc_tile(t) + (enc_tiles(tail) + rest));
        lemma_rt_tile(t, enc_tiles(tail) + rest);
        lemma_rt_tiles(tail, rest);
        assert(seq![t] + tail =~= col);
    }
}

/// The words encoding the whole grid, column by column.
#[verifier::opaque]
pub open spec fn enc_cols(cols: Seq<Seq<Tile>>) -> Seq<u32>
    decreases cols.len(),
{
    if cols.len() == 0 {
        Seq::empty()
    } else {
        seq![cols.first().len() as u32] + enc_tiles(cols.first()) + enc_cols(cols.drop_first())
    }
}

/// Reads `n` columns of tiles, each with its own length prefix.
pub open spec fn dec_cols(s: Seq<u32>, n: nat) -> Option<(Seq<Seq<Tile>>, Seq<u32>)>
    decreases n,
{
    if n == 0 {
        Some((Seq::empty(), s))
    } else {
        match dec_word(s) {
            Some((len, r)) => match dec_tiles(r, len as nat) {
                Some((col, r2)) => match dec_cols(r2, (n - 1) as nat) {
                    Some((cols, r3)) => Some((seq![col] + cols, r3)),
                    None => None,
                },
                None => None,
            },
            None => None,
        }
    }
}

/// Every column short enough to carry a length prefix.
pub open spec fn cols_encodable(cols: Seq<Seq<Tile>>) -> bool {
    forall|i: int| 0 <= i < cols.len() ==> (#[trigger] cols[i]).len() <= 0xFFFF_FFFF
}

/// The whole grid round-trips, column by column.
pub proof fn lemma_rt_cols(cols: Seq<Seq<Tile>>, rest: Seq<u32>)
    requires
        cols_encodable(cols),
    ensures
        dec_cols(enc_cols(cols) + rest, cols.len()) == Some((cols, rest)),
    decreases cols.len(),
{
    reveal(enc_cols);
    if cols.len() == 0 {
        assert(enc_cols(cols) + rest =~= rest);
    } else {
        let col = cols.first();
        let tail = cols.drop_first();
        assert(cols_encodable(tail));
        let r1 = enc_tiles(col) + (enc_cols(tail) + rest);
        assert(enc_cols(cols) + rest =~= seq![col.len() as u32] + r1);
        lemma_rt_word(col.len() as u32, r1);
        assert(r1 =~= enc_tiles(col) + (enc_cols(tail) + rest));
        lemma_rt_tiles(col, enc_cols(tail) + rest);
        lemma_rt_cols(tail, rest);
        assert(seq![col] + tail =~= cols);
    }
}

/// The words encoding the message log, newest last.
#[verifier::opaque]
pub open spec fn enc_msgs(log: Seq<(String, Color)>) -> Seq<u32>
    decreases log.len(),
{
    if log.len() == 0 {
        Seq::empty()
    } else {
        enc_string(log.first().0@) + seq![color_code(log.first().1)] + enc_msgs(log.drop_first())
    }
}

/// Reads `n` log entries as plain text and colour pairs.
pub open spec fn dec_msgs(s: Seq<u32>, n: nat) -> Option<(Seq<(Seq<char>, Color)>, Seq<u32>)>
    decreases n,
{
    if n == 0 {
        Some((Seq::empty(), s))
    } else {
        match dec_string(s) {
            Some((text, r)) => match dec_color(r) {
                Some((c, r2)) => match dec_msgs(r2, (n - 1) as nat) {
                    Some((ms, r3)) => Some((seq![(text, c)] + ms, r3)),
                    None => None,
                },
                None => None,
            },
            None => None,
        }
    }
}

/// The plain image of a message log.
pub open spec fn msgs_model(log: Seq<(String, Color)>) -> Seq<(Seq<char>, Color)> {
    log.map_values(|m: (String, Color)| (m.0@, m.1))
}

/// Every log entry short enough to carry a length prefix.
pub open spec fn msgs_encodable(log: Seq<(String, Color)>) -> bool {
    forall|i: int| 0 <= i < log.len() ==> (#[trigger] log[i]).0@.len() <= 0xFFFF_FFFF
}

/// The message log round-trips to its plain image, in order.
pub proof fn lemma_rt_msgs(log: Seq<(String, Color)>, rest: Seq<u32>)
    requires
        msgs_encodable(log),
    ensures
        dec_msgs(enc_msgs(log) + rest, log.len()) == Some((msgs_model(log), rest)),
    decreases log.len(),
{
    reveal(enc_msgs);
    if log.len() == 0 {
        assert(enc_msgs(log) + rest =~= rest);
        assert(msgs_model(log) =~= Seq::<(Seq<char>, Color)>::empty());
    } else {
        let m = log.first();
        let tail = log.drop_first();
        assert(msgs_encodable(tail));
        let r1 = seq![color_code(m.1)] + (enc_msgs(tail) + rest);
        assert(enc_msgs(log) + rest =~= enc_string(m.0@) + r1);
        lemma_rt_string(m.0@, r1);
        assert(r1 =~= seq![color_code(m.1)] + (enc_msgs(tail) + rest));
        lemma_rt_color(m.1, enc_msgs(tail) + rest);
        lemma_rt_msgs(tail, rest);
        assert(seq![(m.0@, m.1)] + msgs_model(tail) =~= msgs_model(log));
    }
}

/// The plain image of a whole saved session.
pub struct SaveModel {
    pub map: Seq<Seq<Tile>>,
    pub log: Seq<(Seq<char>, Color)>,
    pub inventory: Seq<ObjectModel>,
    pub dungeon_level: u32,
    pub store: Seq<ObjectModel>,
}

/// The image of a session: everything a save must preserve.
pub open spec fn save_model(game: Game, objects: Seq<Object>) -> SaveModel {
    SaveModel {
        map: map_view(&game.map),
        log: msgs_model(game.log@),
        inventory: models_of(game.inventory@),
        dungeon_level: game.dungeon_level,
        store: models_of(objects),
    }
}

/// A session's text payloads are short enough to carry length prefixes.
pub open spec fn session_encodable(game: Game, objects: Seq<Object>) -> bool {
    &&& cols_encodable(map_view(&game.map))
    &&& map_view(&game.map).len() <= 0xFFFF_FFFF
    &&& msgs_encodable(game.log@)
    &&& game.log@.len() <= 0xFFFF_FFFF
    &&& names_encodable(game.inventory@)
    &&& game.inventory@.len() <= 0xFFFF_FFFF
    &&& names_encodable(objects)
    &&& objects.len() <= 0xFFFF_FFFF
}

/// The words encoding a whole session: the grid, the log, the inventory,
/// the depth, and the entity store, each sequence with a length prefix.
pub open spec fn enc_state(game: Game, objects: Seq<Object>) -> Seq<u32> {
    seq![map_view(&game.map).len() as u32] + enc_cols(map_view(&game.map)) + seq![
        game.log@.len() as u32,
    ] + enc_msgs(game.log@) + seq![game.inventory@.len() as u32] + enc_objects(game.inventory@)
        + seq![game.dungeon_level] + seq![objects.len() as u32] + enc_objects(objects)
}

/// Reads a whole session image; every word must be consumed.
pub open spec fn dec_state(s: Seq<u32>) -> Option<SaveModel> {
    match dec_word(s) {
        Some((ncols, s1)) => match dec_cols(s1, ncols as nat) {
            Some((map, s2)) => match dec_word(s2) {
                Some((nmsgs, s3)) => match dec_msgs(s3, nmsgs as nat) {
                    Some((log, s4)) => match dec_word(s4) {
                        Some((ninv, s5)) => match dec_objects(s5, ninv as nat) {
                            Some((inventory, s6)) => match dec_word(s6) {
                                Some((dungeon_level, s7)) => match dec_word(s7) {
                                    Some((nstore, s8)) => match dec_objects(s8, nstore as nat) {
                                        Some((store, s9)) => if s9.len() == 0 {
                                            Some(
                                                SaveModel {
                                                    map,
                                                    log,
                                                    inventory,
                                                    dungeon_level,
                                                    store,
                                                },
                                            )
                                        } else {
                                            None
                                        },
                                        None => None,
                                    },
                                    None => None,
                                },
                                None => None,
                            },
                            None => None,
                        },
                        None => None,
                    },
                    None => None,
                },
                None => None,
            },
            None => None,
        },
        None => None,
    }
}

/// A saved session decodes back to exactly its own image: the map tiles with
/// their explored flags, every log entry, every inventory and store entity
/// field by field, and the dungeon depth — the player staying at index 0 of
/// the store.
#[verifier::rlimit(100)]
pub proof fn lemma_save_roundtrip(game: Game, objects: Seq<Object>)
    requires
        session_encodable(game, objects),
    ensures
        dec_state(enc_state(game, objects)) == Some(save_model(game, objects)),
        objects.len() > 0 ==> save_model(game, objects).store[0] == model_of(objects[0]),
{
    let cols = map_view(&game.map);
    let log = game.log@;
    let inv = game.inventory@;
    let rStore = enc_objects(objects) + Seq::<u32>::empty();
    let rNStore = seq![objects.len() as u32] + rStore;
    let rDepth = seq![game.dungeon_level] + rNStore;
    let rInv = enc_objects(inv) + rDepth;
    let rNInv = seq![inv.len() as u32] + rInv;
    let rMsgs = enc_msgs(log) + rNInv;
    let rNMsgs = seq![log.len() as u32] + rMsgs;
    let rCols = enc_cols(cols) + rNMsgs;
    assert(enc_state(game, objects) =~= seq![cols.len() as u32] + rCols);
    lemma_rt_word(cols.len() as u32, rCols);
    assert(rCols =~= enc_cols(cols) + rNMsgs);
    lemma_rt_cols(cols, rNMsgs);
    lemma_rt_word(log.len() as u32, rMsgs);
    assert(rMsgs =~= enc_msgs(log) + rNInv);
    lemma_rt_msgs(log, rNInv);
    lemma_rt_word(inv.len() as u32, rInv);
    assert(rInv =~= enc_objects(inv) + rDepth);
    lemma_rt_objects(inv, rDepth);
    lemma_rt_word(game.dungeon_level, rNStore);
    lemma_rt_word(objects.len() as u32, rStore);
    assert(rStore =~= enc_objects(objects) + Seq::<u32>::empty());
    lemma_rt_objects(objects, Seq::<u32>::empty());
    if objects.len() > 0 {
        assert(models_of(objects)[0] == model_of(objects[0]));
    }
}

/// Encoding distributes over concatenation of entity sequences.
pub proof fn lemma_enc_objects_concat(a: Seq<Object>, b: Seq<Object>)
    ensures
        enc_objects(a + b) == enc_objects(a) + enc_objects(b),
    decreases a.len(),
{
    reveal(enc_objects);
    if a.len() == 0 {
        assert(a + b =~= b);
        assert(enc_objects(a) + enc_objects(b) =~= enc_objects(b));
    } else {
        assert((a + b).first() == a.first());
        assert((a + b).drop_first() =~= a.drop_first() + b);
        lemma_enc_objects_concat(a.drop_first(), b);
        assert(enc_objects(a + b) =~= enc_objects(a) + enc_objects(b));
    }
}

/// Encoding distributes over concatenation of tile sequences.
pub proof fn lemma_enc_tiles_concat(a: Seq<Tile>, b: Seq<Tile>)
    ensures
        enc_tiles(a + b) == enc_tiles(a) + enc_tiles(b),
    decreases a.len(),
{
    if a.len() == 0 {
        assert(a + b =~= b);
        assert(enc_tiles(a) + enc_tiles(b) =~= enc_tiles(b));
    } else {
        assert((a + b).first() == a.first());
        assert((a + b).drop_first() =~= a.drop_first() + b);
        lemma_enc_tiles_concat(a.drop_first(), b);
        assert(enc_tiles(a + b) =~= enc_tiles(a) + enc_tiles(b));
    }
}

/// Encoding distributes over concatenation of columns.
pub proof fn lemma_enc_cols_concat(a: Seq<Seq<Tile>>, b: Seq<Seq<Tile>>)
    ensures
        enc_cols(a + b) == enc_cols(a) + enc_cols(b),
    decreases a.len(),
{
    reveal(enc_cols);
    if a.len() == 0 {
        assert(a + b =~= b);
        assert(enc_cols(a) + enc_cols(b) =~= enc_cols(b));
    } else {
        assert((a + b).first() == a.first());
        assert((a + b).drop_first() =~= a.drop_first() + b);
        lemma_enc_cols_concat(a.drop_first(), b);
        assert(enc_cols(a + b) =~= enc_cols(a) + enc_cols(b));
    }
}

/// Encoding distributes over concatenation of log entries.
pub proof fn lemma_enc_msgs_concat(a: Seq<(String, Color)>, b: Seq<(String, Color)>)
    ensures
        enc_msgs(a + b) == enc_msgs(a) + enc_msgs(b),
    decreases a.len(),
{
    reveal(enc_msgs);
    if a.len() == 0 {
        assert(a + b =~= b);
        assert(enc_msgs(a) + enc_msgs(b) =~= enc_msgs(b));
    } else {
        assert((a + b).first() == a.first());
        assert((a + b).drop_first() =~= a.drop_first() + b);
        lemma_enc_msgs_concat(a.drop_first(), b);
        assert(enc_msgs(a + b) =~= enc_msgs(a) + enc_msgs(b));
    }
}

/// Encoding distributes over concatenation of character sequences.
pub proof fn lemma_enc_chars_concat(a: Seq<char>, b: Seq<char>)
    ensures
        enc_chars(a + b) == enc_chars(a) + enc_chars(b),
    decreases a.len(),
{
    if a.len() == 0 {
        assert(a + b =~= b);
        assert(enc_chars(a) + enc_chars(b) =~= enc_chars(b));
    } else {
        assert((a + b).first() == a.first());
        assert((a + b).drop_first() =~= a.drop_first() + b);
        lemma_enc_chars_concat(a.drop_first(), b);
        assert(enc_chars(a + b) =~= enc_chars(a) + enc_chars(b));
    }
}

/// Appends the encoding of a signed value.
fn put_i32(out: &mut Vec<u32>, v: i32)
    ensures
        final(out)@ == old(out)@ + enc_i32(v as int),
{
    let w: u32 = ((v as i64) + 0x8000_0000i64) as u32;
    out.push(w);
    proof {
        assert(out@ =~= old(out)@ + enc_i32(v as int));
    }
}

/// Appends the encoding of a boolean.
fn put_bool(out: &mut Vec<u32>, b: bool)
    ensures
        final(out)@ == old(out)@ + enc_bool(b),
{
    out.push(if b { 1 } else { 0 });
    proof {
        assert(out@ =~= old(out)@ + enc_bool(b));
    }
}

/// Appends one raw word.
fn put_word(out: &mut Vec<u32>, w: u32)
    ensures
        final(out)@ == old(out)@ + seq![w],
{
    out.push(w);
    proof {
        assert(out@ =~= old(out)@ + seq![w]);
    }
}

/// Appends the encoding of a string: length prefix, then code points.
fn put_string(out: &mut Vec<u32>, s: &String)
    requires
        s@.len() <= 0xFFFF_FFFF,
    ensures
        final(out)@ == old(out)@ + enc_string(s@),
{
    let chars = string_chars(s);
    put_word(out, chars.len() as u32);
    proof {
        assert(enc_chars(s@.take(0)) =~= Seq::<u32>::empty());
        assert(out@ =~= old(out)@ + seq![s@.len() as u32] + enc_chars(s@.take(0)));
    }
    let mut i: usize = 0;
    while i < chars.len()
        invariant
            i <= chars@.len(),
            chars@ == s@,
            out@ == old(out)@ + seq![s@.len() as u32] + enc_chars(s@.take(i as int)),
        decreases chars@.len() - i,
    {
        let c = chars[i];
        put_word(out, c as u32);
        proof {
            assert(s@.take(i + 1) =~= s@.take(i as int) + seq![s@[i as int]]);
            lemma_enc_chars_concat(s@.take(i as int), seq![s@[i as int]]);
            assert(seq![s@[i as int]].drop_first() =~= Seq::<char>::empty());
            assert(enc_chars(Seq::<char>::empty()) =~= Seq::<u32>::empty());
            assert(enc_chars(seq![s@[i as int]]) =~= seq![s@[i as int] as u32]);
            assert(out@ =~= old(out)@ + seq![s@.len() as u32] + enc_chars(s@.take(i + 1)));
        }
        i = i + 1;
    }
    proof {
        assert(s@.take(s@.len() as int) =~= s@);
        assert(out@ =~= old(out)@ + enc_string(s@));
    }
}

/// Appends the encoding of a fighter.
fn put_fighter(out: &mut Vec<u32>, f: &Fighter)
    ensures
        final(out)@ == old(out)@ + enc_fighter(*f),
{
    put_i32(out, f.hp);
    put_i32(out, f.base_defense);
    put_i32(out, f.base_power);
    put_i32(out, f.base_max_hp);
    put_i32(out, f.xp);
    let code: u32 = match f.on_death {
        DeathCallback::Player => 0,
        DeathCallback::Monster => 1,
    };
    put_word(out, code);
    proof {
        reveal(enc_fighter);
        assert(out@ =~= old(out)@ + enc_fighter(*f));
    }
}

/// Appends the encoding of an equipment piece.
fn put_equipment(out: &mut Vec<u32>, e: &Equipment)
    ensures
        final(out)@ == old(out)@ + enc_equipment(*e),
{
    let code: u32 = match e.slot {
        Slot::LeftHand => 0,
        Slot::RightHand => 1,
        Slot::Head => 2,
    };
    put_word(out, code);
    put_bool(out, e.equipped);
    put_i32(out, e.power_bonus);
    put_i32(out, e.defense_bonus);
    put_i32(out, e.max_hp_bonus);
    proof {
        reveal(enc_equipment);
        assert(out@ =~= old(out)@ + enc_equipment(*e));
    }
}

/// Appends the encoding of a decision state.
fn put_ai(out: &mut Vec<u32>, a: &Ai)
    ensures
        final(out)@ == old(out)@ + enc_ai(*a),
    decreases *a,
{
    match a {
        Ai::Basic => {
            put_word(out, 0);
            proof {
                assert(out@ =~= old(out)@ + enc_ai(*a));
            }
        },
        Ai::Confused { previous_ai, num_turns } => {
            put_word(out, 1);
            put_ai(out, &**previous_ai);
            put_i32(out, *num_turns);
            proof {
                assert(out@ =~= old(out)@ + enc_ai(*a));
            }
        },
    }
}

/// Appends the encoding of an entity's capability fields.
#[verifier::rlimit(100)]
fn put_caps(out: &mut Vec<u32>, o: &Object)
    ensures
        final(out)@ == old(out)@ + enc_caps(*o),
{
    match &o.fighter {
        Some(f) => {
            put_word(out, 1);
            put_fighter(out, f);
        },
        None => {
            put_word(out, 0);
        },
    }
    proof {
        assert(out@ =~= old(out)@ + enc_opt_fighter(o.fighter));
    }
    let ghost c1 = out@;
    match &o.ai {
        Some(a) => {
            put_word(out, 1);
            put_ai(out, a);
        },
        None => {
            put_word(out, 0);
        },
    }
    proof {
        assert(out@ =~= c1 + enc_opt_ai(o.ai));
    }
    let ghost c2 = out@;
    match &o.item {
        Some(i) => {
            put_word(out, 1);
            let icode: u32 = match i {
                Item::Heal => 0,
                Item::Lightning => 1,
                Item::Confuse => 2,
                Item::Fireball => 3,
                Item::Sword => 4,
                Item::Shield => 5,
            };
            put_word(out, icode);
        },
        None => {
            put_word(out, 0);
        },
    }
    proof {
        assert(out@ =~= c2 + enc_opt_item(o.item));
    }
    let ghost c3 = out@;
    match &o.equipment {
        Some(e) => {
            put_word(out, 1);
            put_equipment(out, e);
        },
        None => {
            put_word(out, 0);
        },
    }
    proof {
        assert(out@ =~= c3 + enc_opt_equipment(o.equipment));
        assert(out@ =~= old(out)@ + enc_caps(*o));
    }
}

/// Appends the encoding of one entity.
#[verifier::rlimit(100)]
fn put_object(out: &mut Vec<u32>, o: &Object)
    requires
        o.name@.len() <= 0xFFFF_FFFF,
    ensures
        final(out)@ == old(out)@ + enc_object(*o),
{
    put_i32(out, o.x);
    put_i32(out, o.y);
    put_string(out, &o.name);
    put_bool(out, o.blocks);
    put_bool(out, o.alive);
    put_bool(out, o.always_visible);
    put_word(out, o.glyph as u32);
    let ccode = encode_color(o.color);
    put_word(out, ccode);
    put_i32(out, o.level);
    put_caps(out, o);
    proof {
        reveal(enc_object);
        assert(out@ =~= old(out)@ + enc_object(*o));
    }
}

/// Computes a colour's tag word.
fn encode_color(c: Color) -> (w: u32)
    ensures
        w == color_code(c),
{
    match c {
        Color::Black => 0,
        Color::White => 1,
        Color::Red => 2,
        Color::DarkRed => 3,
        Color::DarkerRed => 4,
        Color::LightRed => 5,
        Color::Green => 6,
        Color::LightGreen => 7,
        Color::DesaturatedGreen => 8,
        Color::DarkerGreen => 9,
        Color::Yellow => 10,
        Color::LightYellow => 11,
        Color::Orange => 12,
        Color::DarkerOrange => 13,
        Color::LightBlue => 14,
        Color::Sky => 15,
        Color::Violet => 16,
        Color::LightViolet => 17,
        Color::LightCyan => 18,
        Color::LightGrey => 19,
        Color::DesaturatedFuchsia => 20,
        Color::Gold => 21,
    }
}

/// Appends the encodings of a run of entities.
fn put_objects(out: &mut Vec<u32>, objs: &Vec<Object>)
    requires
        names_encodable(objs@),
    ensures
        final(out)@ == old(out)@ + enc_objects(objs@),
{
    proof {
        reveal(enc_objects);
        assert(enc_objects(objs@.take(0)) =~= Seq::<u32>::empty());
        assert(out@ =~= old(out)@ + enc_objects(objs@.take(0)));
    }
    let mut i: usize = 0;
    while i < objs.len()
        invariant
            i <= objs@.len(),
            names_encodable(objs@),
            out@ == old(out)@ + enc_objects(objs@.take(i as int)),
        decreases objs@.len() - i,
    {
        put_object(out, &objs[i]);
        proof {
            reveal(enc_objects);
            assert(objs@.take(i + 1) =~= objs@.take(i as int) + seq![objs@[i as int]]);
            lemma_enc_objects_concat(objs@.take(i as int), seq![objs@[i as int]]);
            assert(seq![objs@[i as int]].drop_first() =~= Seq::<Object>::empty());
            assert(enc_objects(Seq::<Object>::empty()) + Seq::<u32>::empty()
                =~= Seq::<u32>::empty());
            assert(enc_objects(seq![objs@[i as int]]) =~= enc_object(objs@[i as int]));
            assert(out@ =~= old(out)@ + enc_objects(objs@.take(i + 1)));
        }
        i = i + 1;
    }
    proof {
        assert(objs@.take(objs@.len() as int) =~= objs@);
    }
}

/// Serializes a whole session into its word stream.
pub fn save_state(game: &Game, objects: &Vec<Object>) -> (out: Vec<u32>)
    requires
        session_encodable(*game, objects@),
    ensures
        out@ == enc_state(*game, objects@),
{
    let mut out: Vec<u32> = Vec::new();
    put_word(&mut out, game.map.len() as u32);
    proof {
        reveal(enc_cols);
        assert(enc_cols(map_view(&game.map).take(0)) =~= Seq::<u32>::empty());
        assert(out@ =~= seq![map_view(&game.map).len() as u32] + enc_cols(
            map_view(&game.map).take(0),
        ));
    }
    let mut x: usize = 0;
    while x < game.map.len()
        invariant
            x <= game.map@.len(),
            session_encodable(*game, objects@),
            out@ == seq![map_view(&game.map).len() as u32] + enc_cols(
                map_view(&game.map).take(x as int),
            ),
        decreases game.map@.len() - x,
    {
        let col = &game.map[x];
        put_word(&mut out, col.len() as u32);
        proof {
            assert(game.map@[x as int]@ == map_view(&game.map)[x as int]);
            assert(enc_tiles(col@.take(0)) =~= Seq::<u32>::empty());
            assert(out@ =~= seq![map_view(&game.map).len() as u32] + enc_cols(
                map_view(&game.map).take(x as int),
            ) + seq![col@.len() as u32] + enc_tiles(col@.take(0)));
        }
        let mut y: usize = 0;
        while y < col.len()
            invariant
                y <= col@.len(),
                col@ == map_view(&game.map)[x as int],
                x < map_view(&game.map).len(),
                out@ == seq![map_view(&game.map).len() as u32] + enc_cols(
                    map_view(&game.map).take(x as int),
                ) + seq![col@.len() as u32] + enc_tiles(col@.take(y as int)),
            decreases col@.len() - y,
        {
            let t = col[y];
            put_bool(&mut out, t.blocked);
            put_bool(&mut out, t.block_sight);
            put_bool(&mut out, t.explored);
            proof {
                assert(col@.take(y + 1) =~= col@.take(y as int) + seq![col@[y as int]]);
                lemma_enc_tiles_concat(col@.take(y as int), seq![col@[y as int]]);
                assert(seq![col@[y as int]].drop_first() =~= Seq::<Tile>::empty());
                assert(enc_tiles(Seq::<Tile>::empty()) =~= Seq::<u32>::empty());
                assert(enc_tiles(seq![col@[y as int]]) =~= enc_tile(col@[y as int]));
                assert(out@ =~= seq![map_view(&game.map).len() as u32] + enc_cols(
                    map_view(&game.map).take(x as int),
                ) + seq![col@.len() as u32] + enc_tiles(col@.take(y + 1)));
            }
            y = y + 1;
        }
        proof {
            reveal(enc_cols);
            let cols = map_view(&game.map);
            assert(col@.take(col@.len() as int) =~= col@);
            assert(cols.take(x + 1) =~= cols.take(x as int) + seq![cols[x as int]]);
            lemma_enc_cols_concat(cols.take(x as int), seq![cols[x as int]]);
            assert(seq![cols[x as int]].drop_first() =~= Seq::<Seq<Tile>>::empty());
            assert(enc_cols(Seq::<Seq<Tile>>::empty()) =~= Seq::<u32>::empty());
            assert(enc_cols(seq![cols[x as int]]) =~= seq![cols[x as int].len() as u32]
                + enc_tiles(cols[x as int]));
            assert(out@ =~= seq![cols.len() as u32] + enc_cols(cols.take(x + 1)));
        }
        x = x + 1;
    }
    proof {
        let cols = map_view(&game.map);
        assert(cols.take(cols.len() as int) =~= cols);
    }
    put_word(&mut out, game.log.len() as u32);
    proof {
        reveal(enc_msgs);
        assert(enc_msgs(game.log@.take(0)) =~= Seq::<u32>::empty());
        assert(out@ =~= seq![map_view(&game.map).len() as u32] + enc_cols(map_view(&game.map))
            + seq![game.log@.len() as u32] + enc_msgs(game.log@.take(0)));
    }
    let mut m: usize = 0;
    while m < game.log.len()
        invariant
            m <= game.log@.len(),
            session_encodable(*game, objects@),
            out@ == seq![map_view(&game.map).len() as u32] + enc_cols(map_view(&game.map))
                + seq![game.log@.len() as u32] + enc_msgs(game.log@.take(m as int)),
        decreases game.log@.len() - m,
    {
        let entry = &game.log[m];
        put_string(&mut out, &entry.0);
        let ccode = encode_color(entry.1);
        put_word(&mut out, ccode);
        proof {
            reveal(enc_msgs);
            assert(game.log@.take(m + 1) =~= game.log@.take(m as int) + seq![
                game.log@[m as int],
            ]);
            lemma_enc_msgs_concat(game.log@.take(m as int), seq![game.log@[m as int]]);
            assert(seq![game.log@[m as int]].drop_first() =~= Seq::<(String, Color)>::empty());
            assert(enc_msgs(Seq::<(String, Color)>::empty()) =~= Seq::<u32>::empty());
            assert(enc_msgs(seq![game.log@[m as int]]) =~= enc_string(game.log@[m as int].0@)
                + seq![color_code(game.log@[m as int].1)]);
            assert(out@ =~= seq![map_view(&game.map).len() as u32] + enc_cols(
                map_view(&game.map),
            ) + seq![game.log@.len() as u32] + enc_msgs(game.log@.take(m + 1)));
        }
        m = m + 1;
    }
    proof {
        assert(game.log@.take(game.log@.len() as int) =~= game.log@);
    }
    put_word(&mut out, game.inventory.len() as u32);
    put_objects(&mut out, &game.inventory);
    put_word(&mut out, game.dungeon_level);
    put_word(&mut out, objects.len() as u32);
    put_objects(&mut out, objects);
    proof {
        assert(out@ =~= enc_state(*game, objects@));
    }
    out
}

} // verus!
