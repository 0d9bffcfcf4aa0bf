use heredian::config::{ConfigError, ConfigFile};
use heredian::world::Ambients;
use heredian::scene::{Gate, InfoChar, LayeredObject, LayeredObjectType, OpcaoChar, Sprite};

fn load(lines: &[&str]) -> ConfigFile {
    let mut c = ConfigFile::new();
    for l in lines {
        c.insert_line(l).unwrap();
    }
    c
}

#[test]
fn lines_set_keys() {
    let c = load(&[
        "width=640",
        "; a comment",
        "   ",
        "height=480# trailing",
        "name=Japa",
        "skip=NULL",
        "width=800",
        "pair=a=b",
        "neg=-12",
        "plus=+7",
    ]);
    assert_eq!(c.get("width"), Ok(Some(800)));
    assert_eq!(c.get("height"), Ok(Some(480)));
    assert_eq!(c.get_string("name").map(|s| s.as_str()), Some("Japa"));
    assert_eq!(c.get_string("skip"), None);
    assert_eq!(c.get_string("pair").map(|s| s.as_str()), Some("a"));
    assert_eq!(c.get("neg"), Ok(Some(-12)));
    assert_eq!(c.get("plus"), Ok(Some(7)));
    assert_eq!(c.get("missing"), Ok(None));
    assert_eq!(c.get("name"), Err(ConfigError::NotAnInteger));
}

#[test]
fn line_without_equals_is_refused() {
    let mut c = ConfigFile::new();
    assert_eq!(c.insert_line("oops"), Err(ConfigError::LineUnexpected));
    assert_eq!(c.insert_line("# only a comment"), Ok(()));
    assert_eq!(c.get_string("oops"), None);
}

#[test]
fn integers_out_of_range_are_refused() {
    let c = load(&["big=2147483648", "small=-2147483648", "max=2147483647", "space=12 ", "empty="]);
    assert_eq!(c.get("big"), Err(ConfigError::NotAnInteger));
    assert_eq!(c.get("small"), Ok(Some(i32::MIN)));
    assert_eq!(c.get("max"), Ok(Some(i32::MAX)));
    assert_eq!(c.get("space"), Err(ConfigError::NotAnInteger));
    assert_eq!(c.get("empty"), Err(ConfigError::NotAnInteger));
}

#[test]
fn gates_from_settings() {
    let c = load(&[
        "num_gates=2",
        "gate1_x1=1", "gate1_y1=2", "gate1_x2=3", "gate1_y2=4", "gate1_map=2", "gate1_ex=5", "gate1_ey=6",
        "gate2_x1=10", "gate2_y1=20", "gate2_x2=30", "gate2_y2=40", "gate2_map=1", "gate2_ex=50", "gate2_ey=60",
    ]);
    let gates = Gate::from_config(&c).unwrap();
    assert_eq!(gates.len(), 2);
    assert_eq!(gates[0], Gate { x1: 1, y1: 2, x2: 3, y2: 4, ambient_id: 2, ex: 5, ey: 6 });
    assert_eq!(gates[1].ey, 60);
    let partial = load(&["num_gates=1", "gate1_x1=1"]);
    assert_eq!(Gate::from_config(&partial), Err(ConfigError::MissingKey));
    let none = load(&["num_gates=0"]);
    assert_eq!(Gate::from_config(&none), Ok(vec![]));
}

#[test]
fn sprite_rows_from_settings() {
    let c = load(&["qt_sprites=3", "size_x=32", "size_y=48"]);
    let rows = Sprite::from_config(&c).unwrap();
    for (i, row) in rows.iter().enumerate() {
        assert_eq!(row.len(), 3);
        assert_eq!(row[0].ix, 0);
        assert_eq!(row[0].iy, i as i32);
        assert!(row[0].first && !row[0].last);
        assert!(!row[1].first && !row[1].last);
        assert!(row[2].last && !row[2].first);
        assert_eq!((row[2].w, row[2].h), (32, 48));
    }
    let single = load(&["qt_sprites=-1", "size_x=32", "size_y=48"]);
    let rows = Sprite::from_config(&single).unwrap();
    assert_eq!(rows[3].len(), 1);
    assert!(rows[3][0].first && rows[3][0].last);
    assert_eq!(rows[3][0].w, 0);
    assert_eq!(Sprite::from_config(&load(&["qt_sprites=3"])).unwrap_err(), ConfigError::MissingKey);
}

#[test]
fn character_info_from_settings() {
    let c = load(&["name=Gauss", "healtfull=120", "staminafull=80"]);
    let info = InfoChar::from_config(&c).unwrap();
    assert_eq!(info.name, "Gauss");
    assert_eq!((info.healtfull, info.healt), (120, 120));
    assert_eq!((info.staminafull, info.stamina), (80, 80));
    let bad = load(&["name=Gauss", "healtfull=x", "staminafull=80"]);
    assert_eq!(InfoChar::from_config(&bad).unwrap_err(), ConfigError::NotAnInteger);
}

#[test]
fn small_screen_types() {
    assert_eq!(OpcaoChar::James.code(), 1);
    assert_eq!(OpcaoChar::Gauss.code(), 4);
    assert_eq!(LayeredObject::default().kind, LayeredObjectType::Empty);
}

#[test]
fn enemy_roster_from_settings() {
    let roster = load(&[
        "qt_inimigos=2",
        "1_num=3", "1_x=10", "1_y=20", "1_a=0", "1_d=2", "1_helt=50", "1_stamina=5", "1_idmap=1", "1_width=16", "1_height=24",
        "2_num=-1", "2_x=1", "2_y=2", "2_a=1", "2_d=4", "2_helt=9", "2_stamina=0", "2_idmap=2", "2_width=8", "2_height=8",
    ]);
    let kinds = load(&["3vision=120", "3step=4", "-1damage=7"]);
    let enemies = Ambients::load_enemies(&roster, &kinds).unwrap();
    assert_eq!(enemies.len(), 2);
    let e = enemies[0];
    assert_eq!((e.idchar, e.numchar, e.x, e.y, e.w, e.h), (1, 3, 10, 20, 16, 24));
    assert_eq!((e.vision, e.step, e.damage, e.healt, e.idmap), (120, 4, 0, 50, 1));
    let e = enemies[1];
    assert_eq!((e.idchar, e.numchar, e.vision, e.step, e.damage), (2, -1, 0, 0, 7));
    assert!(!e.exit);
    let bad = load(&["qt_inimigos=1", "1_num=40000"]);
    assert_eq!(Ambients::load_enemies(&bad, &kinds).unwrap_err(), ConfigError::NotAnInteger);
}
