//! Which Freesound sounds belong to which event.
//!
//! Every id here was chosen by hand from search results, and every one is CC0. Sounds
//! are named by id rather than found by a search at install time: a search does not
//! rank the same way twice, and "whatever is top of the results today" is not something
//! to hand a new user unheard.

use vstd::prelude::*;

use crate::text::same_text;

verus! {

/// The sound group that plays for one event.
pub struct Theme {
    /// The event this group plays for.
    pub event_id: &'static str,
    /// The sound group's display name.
    pub group_name: &'static str,
    pub sound_ids: Vec<u64>,
}

/// The events that have a theme, in catalog order.
pub open spec fn themed_events() -> Seq<Seq<char>> {
    seq![
        "OPEN_DOOR"@,
        "DOOR_SLAM"@,
        "CHEST_OPEN"@,
        "SWORD_SWING"@,
        "BOW_SHOT"@,
        "THUNDER"@,
        "FIRE"@,
        "WATER_SPLASH"@,
        "WOLF_GROWL"@,
        "SMALL_CREATURE_SCURRY"@,
        "FOOTSTEPS"@,
        "MAGIC_CAST"@,
        "COINS"@,
        "GLASS_SHATTER"@,
        "FIREBALL"@,
        "SPELL_HEAL"@,
        "SPELL_TELEPORT"@,
        "SPELL_ICE"@,
        "SWORD_UNSHEATHE"@,
        "SHIELD_BLOCK"@,
        "ARMOR_CLANK"@,
        "BODY_FALL"@,
        "SCREAM"@,
        "DRAGON_ROAR"@,
        "HORSE"@,
        "GHOST_MOAN"@,
        "BONES"@,
        "CROW"@,
        "POTION_DRINK"@,
        "DICE_ROLL"@,
        "KEYS_LOCK"@,
        "SCROLL_PAPER"@,
        "WIND"@,
        "RAIN"@,
        "BELL"@,
        "TAVERN"@,
    ]
}

/// The event identifiers of a list of themes.
pub open spec fn events_of(themes: Seq<Theme>) -> Seq<Seq<char>> {
    themes.map_values(|t: Theme| t.event_id@)
}

/// A theme as plain values: its event, its group's name, and its sounds.
pub open spec fn theme_view(t: Theme) -> (Seq<char>, Seq<char>, Seq<u64>) {
    (t.event_id@, t.group_name@, t.sound_ids@)
}

/// The starter pack's themes, in catalog order.
pub open spec fn starter_themes() -> Seq<(Seq<char>, Seq<char>, Seq<u64>)> {
    seq![
        ("OPEN_DOOR"@, "Двері відчиняються"@, seq![588509, 390123, 416962, 238420, 778457, 788015]),
        ("DOOR_SLAM"@, "Двері грюкають"@, seq![705170, 647649, 216879, 372877, 406595, 537737]),
        ("CHEST_OPEN"@, "Скрині"@, seq![202092, 771164, 573653, 573654, 364740]),
        ("SWORD_SWING"@, "Удари мечем"@, seq![475133, 475132, 733890, 485277, 326795, 326862]),
        ("BOW_SHOT"@, "Луки й стріли"@, seq![394185, 394178, 394180, 384915, 384916, 384908]),
        ("THUNDER"@, "Грім"@, seq![760212, 477839, 486274, 534023, 244693, 760213]),
        ("FIRE"@, "Вогонь"@, seq![539972, 475879, 178886, 412558, 714566, 111331, 260554, 244926, 386385]),
        ("WATER_SPLASH"@, "Вода"@, seq![398039, 829676, 737233, 425140, 563858, 316590]),
        ("WOLF_GROWL"@, "Вовки"@, seq![399184, 399186, 753896, 342204, 378334, 472402]),
        ("SMALL_CREATURE_SCURRY"@, "Дрібні істоти"@, seq![288941, 536753, 800274, 445958, 428114]),
        ("FOOTSTEPS"@, "Кроки"@, seq![637555, 813622, 422686, 231851, 845027, 651516]),
        ("MAGIC_CAST"@, "Магія"@, seq![455341, 241809, 786290, 688048, 802726, 729536]),
        ("COINS"@, "Монети"@, seq![213979, 350869, 336576, 629985, 443334, 512216, 536074]),
        ("GLASS_SHATTER"@, "Розбите скло"@, seq![566448, 566446, 554564, 848312, 540451, 629625]),
        ("FIREBALL"@, "Вогняні кулі й вибухи"@, seq![105016, 431174, 186932, 267887, 522705, 442872]),
        ("SPELL_HEAL"@, "Магія зцілення"@, seq![562292, 346116, 407479, 715067, 351408, 471834]),
        ("SPELL_TELEPORT"@, "Телепорти й портали"@, seq![150950, 512217, 220202, 172207, 453391, 735062]),
        ("SPELL_ICE"@, "Крижана магія"@, seq![709888, 691005, 160420, 683180, 396447, 685253]),
        ("SWORD_UNSHEATHE"@, "Витягання клинка"@, seq![320521, 107589, 581594, 423935, 175957, 175953]),
        ("SHIELD_BLOCK"@, "Блоки й парирування"@, seq![523760, 760636, 760633, 760634, 760635, 616493]),
        ("ARMOR_CLANK"@, "Обладунки"@, seq![505669, 587442, 443746, 345070, 494823, 185842]),
        ("BODY_FALL"@, "Тіло падає на землю"@, seq![417994, 325270, 504626, 325269, 346695, 346694]),
        ("SCREAM"@, "Крики"@, seq![169628, 219719, 203594, 221544, 243377, 445008]),
        ("DRAGON_ROAR"@, "Дракони"@, seq![85568, 398908, 145729, 442964, 466830, 532156]),
        ("HORSE"@, "Коні"@, seq![175356, 269571, 564626, 197212, 826753, 336701]),
        ("GHOST_MOAN"@, "Привиди й духи"@, seq![352508, 431979, 234044, 152721, 581090, 473525]),
        ("BONES"@, "Кістки й скелети"@, seq![202102, 202091, 249811, 192146, 392883, 144159]),
        ("CROW"@, "Ворони й круки"@, seq![66763, 56234, 75162, 67356, 512781, 716962]),
        ("POTION_DRINK"@, "Питво зілля"@, seq![574077, 445970, 531755, 320139, 133977, 368711]),
        ("DICE_ROLL"@, "Кубики"@, seq![177208, 629982, 353975, 353974, 162456, 94031]),
        ("KEYS_LOCK"@, "Ключі й замки"@, seq![267711, 390324, 119918, 187347, 418846, 565909]),
        ("SCROLL_PAPER"@, "Сувої й карти"@, seq![615337, 615334, 615336, 522185, 185051, 814247]),
        ("WIND"@, "Вітер"@, seq![45642, 113173, 113175, 113176, 410369, 673323]),
        ("RAIN"@, "Дощ"@, seq![21189, 232731, 595717, 244028, 396484, 543649]),
        ("BELL"@, "Дзвони"@, seq![76405, 633208, 378799, 219047, 416992, 62963]),
        ("TAVERN"@, "Таверна"@, seq![415974, 509951, 457043, 424790, 710856, 222993]),
    ]
}

/// The first position, from `from` on, of a theme for `event_id`.
pub open spec fn theme_position(
    themes: Seq<(Seq<char>, Seq<char>, Seq<u64>)>,
    event_id: Seq<char>,
    from: int,
) -> Option<int>
    decreases themes.len() - from,
{
    if from < 0 || from >= themes.len() {
        None
    } else if themes[from].0 == event_id {
        Some(from)
    } else {
        theme_position(themes, event_id, from + 1)
    }
}

/// Every theme of the starter pack.
pub fn themes() -> (themes: Vec<Theme>)
    ensures
        themes@.map_values(|t: Theme| theme_view(t)) == starter_themes(),
        events_of(themes@) == themed_events(),
{
    let themes = vec![
        Theme {
            event_id: "OPEN_DOOR",
            group_name: "Двері відчиняються",
            sound_ids: vec![588509, 390123, 416962, 238420, 778457, 788015],
        },
        Theme {
            event_id: "DOOR_SLAM",
            group_name: "Двері грюкають",
            sound_ids: vec![705170, 647649, 216879, 372877, 406595, 537737],
        },
        // 536074 "Coin Gold Box Open" used to be here and is a coin sound, not a chest:
        // it fired for CHEST_OPEN in a live session and sounded wrong.
        Theme {
            event_id: "CHEST_OPEN",
            group_name: "Скрині",
            sound_ids: vec![202092, 771164, 573653, 573654, 364740],
        },
        Theme {
            event_id: "SWORD_SWING",
            group_name: "Удари мечем",
            sound_ids: vec![475133, 475132, 733890, 485277, 326795, 326862],
        },
        Theme {
            event_id: "BOW_SHOT",
            group_name: "Луки й стріли",
            sound_ids: vec![394185, 394178, 394180, 384915, 384916, 384908],
        },
        Theme {
            event_id: "THUNDER",
            group_name: "Грім",
            sound_ids: vec![760212, 477839, 486274, 534023, 244693, 760213],
        },
        // Torches are here rather than in an event of their own: FIRE already lists
        // "смолоскип" and "факел" among its keywords, and two events fighting over the
        // same nouns is how a sound stops being predictable.
        Theme {
            event_id: "FIRE",
            group_name: "Вогонь",
            sound_ids: vec![539972, 475879, 178886, 412558, 714566, 111331, 260554, 244926, 386385],
        },
        Theme {
            event_id: "WATER_SPLASH",
            group_name: "Вода",
            sound_ids: vec![398039, 829676, 737233, 425140, 563858, 316590],
        },
        Theme {
            event_id: "WOLF_GROWL",
            group_name: "Вовки",
            sound_ids: vec![399184, 399186, 753896, 342204, 378334, 472402],
        },
        Theme {
            event_id: "SMALL_CREATURE_SCURRY",
            group_name: "Дрібні істоти",
            sound_ids: vec![288941, 536753, 800274, 445958, 428114],
        },
        Theme {
            event_id: "FOOTSTEPS",
            group_name: "Кроки",
            sound_ids: vec![637555, 813622, 422686, 231851, 845027, 651516],
        },
        Theme {
            event_id: "MAGIC_CAST",
            group_name: "Магія",
            sound_ids: vec![455341, 241809, 786290, 688048, 802726, 729536],
        },
        Theme {
            event_id: "COINS",
            group_name: "Монети",
            sound_ids: vec![213979, 350869, 336576, 629985, 443334, 512216, 536074],
        },
        Theme {
            event_id: "GLASS_SHATTER",
            group_name: "Розбите скло",
            sound_ids: vec![566448, 566446, 554564, 848312, 540451, 629625],
        },
        Theme {
            event_id: "FIREBALL",
            group_name: "Вогняні кулі й вибухи",
            sound_ids: vec![105016, 431174, 186932, 267887, 522705, 442872],
        },
        Theme {
            event_id: "SPELL_HEAL",
            group_name: "Магія зцілення",
            sound_ids: vec![562292, 346116, 407479, 715067, 351408, 471834],
        },
        Theme {
            event_id: "SPELL_TELEPORT",
            group_name: "Телепорти й портали",
            sound_ids: vec![150950, 512217, 220202, 172207, 453391, 735062],
        },
        Theme {
            event_id: "SPELL_ICE",
            group_name: "Крижана магія",
            sound_ids: vec![709888, 691005, 160420, 683180, 396447, 685253],
        },
        Theme {
            event_id: "SWORD_UNSHEATHE",
            group_name: "Витягання клинка",
            sound_ids: vec![320521, 107589, 581594, 423935, 175957, 175953],
        },
        Theme {
            event_id: "SHIELD_BLOCK",
            group_name: "Блоки й парирування",
            sound_ids: vec![523760, 760636, 760633, 760634, 760635, 616493],
        },
        Theme {
            event_id: "ARMOR_CLANK",
            group_name: "Обладунки",
            sound_ids: vec![505669, 587442, 443746, 345070, 494823, 185842],
        },
        Theme {
            event_id: "BODY_FALL",
            group_name: "Тіло падає на землю",
            sound_ids: vec![417994, 325270, 504626, 325269, 346695, 346694],
        },
        Theme {
            event_id: "SCREAM",
            group_name: "Крики",
            sound_ids: vec![169628, 219719, 203594, 221544, 243377, 445008],
        },
        Theme {
            event_id: "DRAGON_ROAR",
            group_name: "Дракони",
            sound_ids: vec![85568, 398908, 145729, 442964, 466830, 532156],
        },
        Theme {
            event_id: "HORSE",
            group_name: "Коні",
            sound_ids: vec![175356, 269571, 564626, 197212, 826753, 336701],
        },
        Theme {
            event_id: "GHOST_MOAN",
            group_name: "Привиди й духи",
            sound_ids: vec![352508, 431979, 234044, 152721, 581090, 473525],
        },
        Theme {
            event_id: "BONES",
            group_name: "Кістки й скелети",
            sound_ids: vec![202102, 202091, 249811, 192146, 392883, 144159],
        },
        Theme {
            event_id: "CROW",
            group_name: "Ворони й круки",
            sound_ids: vec![66763, 56234, 75162, 67356, 512781, 716962],
        },
        Theme {
            event_id: "POTION_DRINK",
            group_name: "Питво зілля",
            sound_ids: vec![574077, 445970, 531755, 320139, 133977, 368711],
        },
        Theme {
            event_id: "DICE_ROLL",
            group_name: "Кубики",
            sound_ids: vec![177208, 629982, 353975, 353974, 162456, 94031],
        },
        Theme {
            event_id: "KEYS_LOCK",
            group_name: "Ключі й замки",
            sound_ids: vec![267711, 390324, 119918, 187347, 418846, 565909],
        },
        Theme {
            event_id: "SCROLL_PAPER",
            group_name: "Сувої й карти",
            sound_ids: vec![615337, 615334, 615336, 522185, 185051, 814247],
        },
        Theme {
            event_id: "WIND",
            group_name: "Вітер",
            sound_ids: vec![45642, 113173, 113175, 113176, 410369, 673323],
        },
        Theme {
            event_id: "RAIN",
            group_name: "Дощ",
            sound_ids: vec![21189, 232731, 595717, 244028, 396484, 543649],
        },
        Theme {
            event_id: "BELL",
            group_name: "Дзвони",
            sound_ids: vec![76405, 633208, 378799, 219047, 416992, 62963],
        },
        Theme {
            event_id: "TAVERN",
            group_name: "Таверна",
            sound_ids: vec![415974, 509951, 457043, 424790, 710856, 222993],
        },
    ];
    assert(events_of(themes@) =~= themed_events());
    assert(themes@.map_values(|t: Theme| theme_view(t)) =~= starter_themes());
    themes
}

/// The theme for an event, if the pack has one: the first in the catalog that names it.
pub fn theme_for(event_id: &str) -> (theme: Option<Theme>)
    ensures
        theme is Some <==> themed_events().contains(event_id@),
        match theme_position(starter_themes(), event_id@, 0) {
            Some(k) => theme matches Some(t) && theme_view(t) == starter_themes()[k],
            None => theme is None,
        },
{
    let mut all = themes();
    let ghost events = events_of(all@);
    let ghost table = starter_themes();
    let mut i: usize = 0;
    while i < all.len()
        invariant
            i <= all@.len(),
            events == events_of(all@),
            events == themed_events(),
            table == starter_themes(),
            all@.map_values(|t: Theme| theme_view(t)) == table,
            theme_position(table, event_id@, 0) == theme_position(table, event_id@, i as int),
            forall|k: int| 0 <= k < i ==> all@[k].event_id@ != event_id@,
        decreases all@.len() - i,
    {
        assert(table[i as int] == theme_view(all@[i as int]));
        if same_text(all[i].event_id, event_id) {
            assert(events[i as int] == event_id@);
            return Some(all.remove(i));
        }
        i = i + 1;
    }
    assert forall|k: int| 0 <= k < events.len() implies events[k] != event_id@ by {
        assert(events[k] == all@[k].event_id@);
    }
    None
}

} // verus!
