//! What the game client reads from its settings files: the gates between
//! areas, the sprite sheet layout of a character, and a character's
//! health and stamina; and the small types of its screens.

use std::collections::VecDeque;
use vstd::prelude::*;
use crate::config::{first_error, numbered, numbered_key, setting, setting_res, ConfigError, ConfigFile};

verus! {

/// A choice of the main menu.
#[derive(Clone, Copy, Debug, PartialEq, Eq, Structural)]
pub enum OpcaoMenu {
    NovoJogo,
    Sair,
    Fechar,
}

/// A playable character.
#[derive(Clone, Copy, Debug, PartialEq, Eq, Structural)]
pub enum OpcaoChar {
    James,
    Julios,
    Japa,
    Gauss,
}

impl OpcaoChar {
    /// The character type number of the choice, from 1.
    pub fn code(&self) -> (r: u8)
        ensures
            1 <= r <= 4,
            *self == OpcaoChar::James ==> r == 1,
            *self == OpcaoChar::Julios ==> r == 2,
            *self == OpcaoChar::Japa ==> r == 3,
            *self == OpcaoChar::Gauss ==> r == 4,
    {
        match self {
            OpcaoChar::James => 1,
            OpcaoChar::Julios => 2,
            OpcaoChar::Japa => 3,
            OpcaoChar::Gauss => 4,
        }
    }
}

/// A rectangle: left, top, width, height.
#[derive(Clone, Copy, Debug, Default, PartialEq, Eq, Structural)]
pub struct Rect(pub i32, pub i32, pub i32, pub i32);

/// One frame of a sprite sheet: its size, its column and row in the
/// sheet, whether it ends or starts its animation, and where it is drawn.
#[derive(Clone, Copy, Debug, Default, PartialEq, Eq, Structural)]
pub struct Sprite {
    pub w: i32,
    pub h: i32,
    pub ix: i32,
    pub iy: i32,
    pub last: bool,
    pub first: bool,
    pub rect: Rect,
}

/// A character's name and its health and stamina, full and current.
#[derive(Clone, Debug, Default)]
pub struct InfoChar {
    pub name: String,
    pub healtfull: i32,
    pub staminafull: i32,
    pub healt: i32,
    pub stamina: i32,
}

/// A passage from one area to another: the rectangle that triggers it, the
/// area it leads to, and where it puts the character there.
#[derive(Clone, Copy, Debug, Default, PartialEq, Eq, Structural)]
pub struct Gate {
    pub x1: i32,
    pub y1: i32,
    pub x2: i32,
    pub y2: i32,
    pub ambient_id: i32,
    pub ex: i32,
    pub ey: i32,
}

/// What a drawable entry of a scene's layer list stands for.
#[derive(Clone, Copy, Debug, PartialEq, Eq, Structural)]
pub enum LayeredObjectType {
    Empty,
    EnemyOrChar,
    Lifeless,
}

impl Default for LayeredObjectType {
    fn default() -> (r: Self)
        ensures
            r == LayeredObjectType::Empty,
    {
        LayeredObjectType::Empty
    }
}

/// An entry of a scene's layer list: what it is, its index in its own
/// list, and the height it is sorted by.
#[derive(Clone, Copy, Debug, Default, PartialEq, Eq, Structural)]
pub struct LayeredObject {
    pub kind: LayeredObjectType,
    pub arr_idx: i32,
    pub y: i32,
}

pub open spec fn gate_key(i: nat, field: Seq<char>) -> Seq<char> {
    numbered(seq!['g', 'a', 't', 'e'], i, field)
}

/// Gate `i` as the settings `m` describe it, if all its fields are set.
pub open spec fn gate_spec(m: Map<Seq<char>, Seq<char>>, i: nat) -> Option<Gate> {
    let x1 = setting(m, gate_key(i, seq!['_', 'x', '1']));
    let y1 = setting(m, gate_key(i, seq!['_', 'y', '1']));
    let x2 = setting(m, gate_key(i, seq!['_', 'x', '2']));
    let y2 = setting(m, gate_key(i, seq!['_', 'y', '2']));
    let map = setting(m, gate_key(i, seq!['_', 'm', 'a', 'p']));
    let ex = setting(m, gate_key(i, seq!['_', 'e', 'x']));
    let ey = setting(m, gate_key(i, seq!['_', 'e', 'y']));
    if x1 is Some && y1 is Some && x2 is Some && y2 is Some && map is Some && ex is Some && ey is Some {
        Some(
            Gate {
                x1: x1->Some_0,
                y1: y1->Some_0,
                x2: x2->Some_0,
                y2: y2->Some_0,
                ambient_id: map->Some_0,
                ex: ex->Some_0,
                ey: ey->Some_0,
            },
        )
    } else {
        None
    }
}

/// The readings of gate `i`'s settings, in the order they are read.
pub open spec fn gate_results(m: Map<Seq<char>, Seq<char>>, i: nat) -> Seq<Result<i32, ConfigError>> {
    seq![
        setting_res(m, gate_key(i, seq!['_', 'x', '1'])),
        setting_res(m, gate_key(i, seq!['_', 'y', '1'])),
        setting_res(m, gate_key(i, seq!['_', 'x', '2'])),
        setting_res(m, gate_key(i, seq!['_', 'y', '2'])),
        setting_res(m, gate_key(i, seq!['_', 'm', 'a', 'p'])),
        setting_res(m, gate_key(i, seq!['_', 'e', 'x'])),
        setting_res(m, gate_key(i, seq!['_', 'e', 'y'])),
    ]
}

pub open spec fn num_gates_key() -> Seq<char> {
    seq!['n', 'u', 'm', '_', 'g', 'a', 't', 'e', 's']
}

fn field(cfg: &ConfigFile, i: u32, suffix: &Vec<char>) -> (r: Result<i32, ConfigError>)
    requires
        cfg.wf(),
    ensures
        r is Ok <==> setting(cfg.settings(), gate_key(i as nat, suffix@)) is Some,
        r is Ok ==> r->Ok_0 == setting(cfg.settings(), gate_key(i as nat, suffix@))->Some_0,
        r == setting_res(cfg.settings(), gate_key(i as nat, suffix@)),
{
    let prefix = vec!['g', 'a', 't', 'e'];
    assert(prefix@ =~= seq!['g', 'a', 't', 'e']);
    let k = numbered_key(&prefix, i, suffix);
    cfg.require(&k)
}

fn gate_at(
    cfg: &ConfigFile,
    i: u32,
    sx1: &Vec<char>,
    sy1: &Vec<char>,
    sx2: &Vec<char>,
    sy2: &Vec<char>,
    smap: &Vec<char>,
    sex: &Vec<char>,
    sey: &Vec<char>,
) -> (r: Result<Gate, ConfigError>)
    requires
        cfg.wf(),
        sx1@ == seq!['_', 'x', '1'] && sy1@ == seq!['_', 'y', '1'],
        sx2@ == seq!['_', 'x', '2'] && sy2@ == seq!['_', 'y', '2'],
        smap@ == seq!['_', 'm', 'a', 'p'] && sex@ == seq!['_', 'e', 'x'] && sey@ == seq!['_', 'e', 'y'],
    ensures
        r is Ok <==> gate_spec(cfg.settings(), i as nat) is Some,
        r is Ok ==> Some(r->Ok_0) == gate_spec(cfg.settings(), i as nat),
        r is Err ==> first_error(gate_results(cfg.settings(), i as nat), r->Err_0),
{
    let ghost rs = gate_results(cfg.settings(), i as nat);
    let x1 = match field(cfg, i, sx1) {
        Ok(v) => v,
        Err(e) => {
            assert(rs[0] == Err::<i32, ConfigError>(e));
            assert(forall|k: int| 0 <= k < 0 ==> (#[trigger] rs[k]) is Ok);
            return Err(e);
        },
    };
    let y1 = match field(cfg, i, sy1) {
        Ok(v) => v,
        Err(e) => {
            assert(rs[1] == Err::<i32, ConfigError>(e));
            assert(forall|k: int| 0 <= k < 1 ==> (#[trigger] rs[k]) is Ok);
            return Err(e);
        },
    };
    let x2 = match field(cfg, i, sx2) {
        Ok(v) => v,
        Err(e) => {
            assert(rs[2] == Err::<i32, ConfigError>(e));
            assert(forall|k: int| 0 <= k < 2 ==> (#[trigger] rs[k]) is Ok);
            return Err(e);
        },
    };
    let y2 = match field(cfg, i, sy2) {
        Ok(v) => v,
        Err(e) => {
            assert(rs[3] == Err::<i32, ConfigError>(e));
            assert(forall|k: int| 0 <= k < 3 ==> (#[trigger] rs[k]) is Ok);
            return Err(e);
        },
    };
    let map = match field(cfg, i, smap) {
        Ok(v) => v,
        Err(e) => {
            assert(rs[4] == Err::<i32, ConfigError>(e));
            assert(forall|k: int| 0 <= k < 4 ==> (#[trigger] rs[k]) is Ok);
            return Err(e);
        },
    };
    let ex = match field(cfg, i, sex) {
        Ok(v) => v,
        Err(e) => {
            assert(rs[5] == Err::<i32, ConfigError>(e));
            assert(forall|k: int| 0 <= k < 5 ==> (#[trigger] rs[k]) is Ok);
            return Err(e);
        },
    };
    let ey = match field(cfg, i, sey) {
        Ok(v) => v,
        Err(e) => {
            assert(rs[6] == Err::<i32, ConfigError>(e));
            assert(forall|k: int| 0 <= k < 6 ==> (#[trigger] rs[k]) is Ok);
            return Err(e);
        },
    };
    Ok(Gate { x1, y1, x2, y2, ambient_id: map, ex, ey })
}

impl Gate {
    /// The gates that the settings list: `num_gates` of them, numbered from
    /// 1, gate `i` set by the keys `gate<i>_x1`, `_y1`, `_x2`, `_y2`, `_map`,
    /// `_ex` and `_ey`. An error where one of these is missing or no integer.
    pub fn from_config(config_file: &ConfigFile) -> (r: Result<Vec<Gate>, ConfigError>)
        requires
            config_file.wf(),
        ensures
            ({
                let m = config_file.settings();
                let n = setting(m, num_gates_key());
                r is Ok <==> (n is Some && forall|i: int| 1 <= i <= n->Some_0 ==> (#[trigger] gate_spec(m, i as nat)) is Some)
            }),
            r is Ok ==> {
                let m = config_file.settings();
                let n = setting(m, num_gates_key())->Some_0;
                &&& r->Ok_0@.len() == if n < 0 { 0 } else { n as int }
                &&& forall|k: int| 0 <= k < r->Ok_0@.len() ==> Some(#[trigger] r->Ok_0@[k]) == gate_spec(m, (k + 1) as nat)
            },
            r is Err ==> {
                let m = config_file.settings();
                ||| setting_res(m, num_gates_key()) == Err::<i32, ConfigError>(r->Err_0)
                ||| exists|i: int| #![trigger gate_results(m, i as nat)] {
                    &&& 1 <= i <= setting(m, num_gates_key())->Some_0
                    &&& forall|i2: int| 1 <= i2 < i ==> (#[trigger] gate_spec(m, i2 as nat)) is Some
                    &&& first_error(gate_results(m, i as nat), r->Err_0)
                }
            },
    {
        let key = vec!['n', 'u', 'm', '_', 'g', 'a', 't', 'e', 's'];
        assert(key@ =~= num_gates_key());
        let qt = match config_file.require(&key) {
            Ok(q) => q,
            Err(e) => {
                assert(setting(config_file.settings(), num_gates_key()) is None);
                assert(setting_res(config_file.settings(), num_gates_key()) == Err::<i32, ConfigError>(e));
                return Err(e);
            },
        };
        let ghost m = config_file.settings();
        assert(setting(m, num_gates_key()) == Some(qt));
        let sx1 = vec!['_', 'x', '1'];
        let sy1 = vec!['_', 'y', '1'];
        let sx2 = vec!['_', 'x', '2'];
        let sy2 = vec!['_', 'y', '2'];
        let smap = vec!['_', 'm', 'a', 'p'];
        let sex = vec!['_', 'e', 'x'];
        let sey = vec!['_', 'e', 'y'];
        assert(sx1@ =~= seq!['_', 'x', '1'] && sy1@ =~= seq!['_', 'y', '1']);
        assert(sx2@ =~= seq!['_', 'x', '2'] && sy2@ =~= seq!['_', 'y', '2']);
        assert(smap@ =~= seq!['_', 'm', 'a', 'p'] && sex@ =~= seq!['_', 'e', 'x'] && sey@ =~= seq!['_', 'e', 'y']);
        let mut gates: Vec<Gate> = Vec::new();
        if qt < 1 {
            return Ok(gates);
        }
        let n = qt as u32;
        let mut i: u32 = 1;
        while i <= n
            invariant
                config_file.wf(),
                m == config_file.settings(),
                n == qt,
                1 <= i <= n + 1,
                setting(m, num_gates_key()) == Some(qt),
                sx1@ == seq!['_', 'x', '1'] && sy1@ == seq!['_', 'y', '1'],
                sx2@ == seq!['_', 'x', '2'] && sy2@ == seq!['_', 'y', '2'],
                smap@ == seq!['_', 'm', 'a', 'p'] && sex@ == seq!['_', 'e', 'x'] && sey@ == seq!['_', 'e', 'y'],
                gates@.len() == i - 1,
                forall|k: int| 0 <= k < gates@.len() ==> Some(#[trigger] gates@[k]) == gate_spec(m, (k + 1) as nat),
            decreases n + 1 - i,
        {
            match gate_at(config_file, i, &sx1, &sy1, &sx2, &sy2, &smap, &sex, &sey) {
                Ok(g) => {
                    gates.push(g);
                },
                Err(e) => {
                    proof {
                        let j = i as int;
                        assert(1 <= j <= qt);
                        assert(gate_spec(m, j as nat) is None);
                        assert(!(forall|j2: int| 1 <= j2 <= qt ==> (#[trigger] gate_spec(m, j2 as nat)) is Some));
                        assert forall|i2: int| 1 <= i2 < j implies (#[trigger] gate_spec(m, i2 as nat)) is Some by {
                            assert(Some(gates@[i2 - 1]) == gate_spec(m, i2 as nat));
                        }
                        assert(first_error(gate_results(m, j as nat), e));
                    }
                    return Err(e);
                },
            }
            i = i + 1;
        }
        assert forall|j: int| 1 <= j <= qt implies (#[trigger] gate_spec(m, j as nat)) is Some by {
            assert(Some(gates@[j - 1]) == gate_spec(m, j as nat));
        }
        Ok(gates)
    }
}


pub open spec fn blank_rect() -> Rect {
    Rect(0, 0, 0, 0)
}

/// Frame `j` of row `row` of a sheet of `qt` frames of size `w` by `h`.
pub open spec fn sprite_frame(j: int, row: int, w: i32, h: i32, qt: i32) -> Sprite {
    Sprite {
        ix: j as i32,
        iy: row as i32,
        w: w,
        h: h,
        last: j == qt - 1,
        first: j == 0 && j != qt - 1,
        rect: blank_rect(),
    }
}

/// The frames of one row of a sheet, in order; a sheet of -1 frames has a
/// single empty frame that both starts and ends the animation.
pub open spec fn sprite_row(qt: i32, row: int, w: i32, h: i32) -> Seq<Sprite> {
    if qt == -1 {
        seq![Sprite { ix: 0, iy: 0, w: 0, h: 0, last: true, first: true, rect: blank_rect() }]
    } else {
        Seq::new(if qt < 0 { 0 } else { qt as nat }, |j: int| sprite_frame(j, row, w, h, qt))
    }
}

fn sprite_row_exec(qt: i32, row: i32, w: i32, h: i32) -> (r: VecDeque<Sprite>)
    ensures
        r@ == sprite_row(qt, row as int, w, h),
{
    let mut sprites: VecDeque<Sprite> = VecDeque::new();
    if qt == -1 {
        sprites.push_front(Sprite { ix: 0, iy: 0, w: 0, h: 0, last: true, first: true, rect: Rect(0, 0, 0, 0) });
        assert(sprites@ =~= sprite_row(qt, row as int, w, h));
        return sprites;
    }
    let mut j: i32 = if qt < 0 { 0 } else { qt };
    while j > 0
        invariant
            0 <= j,
            qt >= 0 ==> j <= qt,
            qt < 0 ==> j == 0,
            sprites@ =~= Seq::new(
                ((if qt < 0 { 0 } else { qt as int }) - j) as nat,
                |k: int| sprite_frame(j + k, row as int, w, h, qt),
            ),
        decreases j,
    {
        j = j - 1;
        let s = Sprite {
            ix: j,
            iy: row,
            w: w,
            h: h,
            last: j == qt - 1,
            first: j == 0 && j != qt - 1,
            rect: Rect(0, 0, 0, 0),
        };
        let ghost before = sprites@;
        sprites.push_front(s);
        assert(sprites@ =~= Seq::new(
            ((if qt < 0 { 0 } else { qt as int }) - j) as nat,
            |k: int| sprite_frame(j + k, row as int, w, h, qt),
        )) by {
            assert(sprites@ == seq![s] + before);
        }
    }
    assert(sprites@ =~= sprite_row(qt, row as int, w, h));
    sprites
}

impl Sprite {
    /// The frames of a character's sprite sheet, one row per direction:
    /// `qt_sprites` frames of `size_x` by `size_y` (see `sprite_row`). An
    /// error where one of these settings is missing or no integer.
    pub fn from_config(config_file: &ConfigFile) -> (r: Result<[VecDeque<Sprite>; 4], ConfigError>)
        requires
            config_file.wf(),
        ensures
            ({
                let m = config_file.settings();
                let qt = setting(m, seq!['q', 't', '_', 's', 'p', 'r', 'i', 't', 'e', 's']);
                let w = setting(m, seq!['s', 'i', 'z', 'e', '_', 'x']);
                let h = setting(m, seq!['s', 'i', 'z', 'e', '_', 'y']);
                &&& r is Ok <==> (qt is Some && w is Some && h is Some)
                &&& r is Ok ==> forall|i: int| 0 <= i < 4 ==> (#[trigger] r->Ok_0[i])@ == sprite_row(
                    qt->Some_0,
                    i,
                    w->Some_0,
                    h->Some_0,
                )
                &&& r is Err ==> first_error(
                    seq![
                        setting_res(m, seq!['q', 't', '_', 's', 'p', 'r', 'i', 't', 'e', 's']),
                        setting_res(m, seq!['s', 'i', 'z', 'e', '_', 'x']),
                        setting_res(m, seq!['s', 'i', 'z', 'e', '_', 'y']),
                    ],
                    r->Err_0,
                )
            }),
    {
        let kq = vec!['q', 't', '_', 's', 'p', 'r', 'i', 't', 'e', 's'];
        let kx = vec!['s', 'i', 'z', 'e', '_', 'x'];
        let ky = vec!['s', 'i', 'z', 'e', '_', 'y'];
        assert(kq@ =~= seq!['q', 't', '_', 's', 'p', 'r', 'i', 't', 'e', 's']);
        assert(kx@ =~= seq!['s', 'i', 'z', 'e', '_', 'x']);
        assert(ky@ =~= seq!['s', 'i', 'z', 'e', '_', 'y']);
        let ghost m = config_file.settings();
        let ghost rs = seq![setting_res(m, kq@), setting_res(m, kx@), setting_res(m, ky@)];
        let qt = match config_file.require(&kq) {
            Ok(v) => v,
            Err(e) => {
                assert(rs[0] == Err::<i32, ConfigError>(e));
                return Err(e);
            },
        };
        let w = match config_file.require(&kx) {
            Ok(v) => v,
            Err(e) => {
                assert(rs[1] == Err::<i32, ConfigError>(e) && rs[0] is Ok);
                return Err(e);
            },
        };
        let h = match config_file.require(&ky) {
            Ok(v) => v,
            Err(e) => {
                assert(rs[2] == Err::<i32, ConfigError>(e) && rs[0] is Ok && rs[1] is Ok);
                return Err(e);
            },
        };
        let rows = [
            sprite_row_exec(qt, 0, w, h),
            sprite_row_exec(qt, 1, w, h),
            sprite_row_exec(qt, 2, w, h),
            sprite_row_exec(qt, 3, w, h),
        ];
        Ok(rows)
    }
}

impl InfoChar {
    /// A character's name and full health and stamina, as the settings
    /// `name`, `healtfull` and `staminafull` give them; it starts at full
    /// health and stamina. An error where one of these is missing or, for
    /// the two numbers, no integer.
    pub fn from_config(config_file: &ConfigFile) -> (r: Result<InfoChar, ConfigError>)
        requires
            config_file.wf(),
        ensures
            ({
                let m = config_file.settings();
                let name = seq!['n', 'a', 'm', 'e'];
                let hf = setting(m, seq!['h', 'e', 'a', 'l', 't', 'f', 'u', 'l', 'l']);
                let sf = setting(m, seq!['s', 't', 'a', 'm', 'i', 'n', 'a', 'f', 'u', 'l', 'l']);
                &&& r is Ok <==> (m.contains_key(name) && hf is Some && sf is Some)
                &&& r is Err ==> r->Err_0 == if !m.contains_key(name) {
                    ConfigError::MissingKey
                } else if setting_res(m, seq!['h', 'e', 'a', 'l', 't', 'f', 'u', 'l', 'l']) is Err {
                    setting_res(m, seq!['h', 'e', 'a', 'l', 't', 'f', 'u', 'l', 'l'])->Err_0
                } else {
                    setting_res(m, seq!['s', 't', 'a', 'm', 'i', 'n', 'a', 'f', 'u', 'l', 'l'])->Err_0
                }
                &&& r is Ok ==> {
                    &&& r->Ok_0.name@ == m[name]
                    &&& r->Ok_0.healtfull == hf->Some_0
                    &&& r->Ok_0.staminafull == sf->Some_0
                    &&& r->Ok_0.healt == hf->Some_0
                    &&& r->Ok_0.stamina == sf->Some_0
                }
            }),
    {
        let kn = vec!['n', 'a', 'm', 'e'];
        let kh = vec!['h', 'e', 'a', 'l', 't', 'f', 'u', 'l', 'l'];
        let ks = vec!['s', 't', 'a', 'm', 'i', 'n', 'a', 'f', 'u', 'l', 'l'];
        assert(kn@ =~= seq!['n', 'a', 'm', 'e']);
        assert(kh@ =~= seq!['h', 'e', 'a', 'l', 't', 'f', 'u', 'l', 'l']);
        assert(ks@ =~= seq!['s', 't', 'a', 'm', 'i', 'n', 'a', 'f', 'u', 'l', 'l']);
        let name = match config_file.lookup(&kn) {
            Some(n) => n.clone(),
            None => {
                return Err(ConfigError::MissingKey);
            },
        };
        let healtfull = match config_file.require(&kh) { Ok(v) => v, Err(e) => { return Err(e); } };
        let staminafull = match config_file.require(&ks) { Ok(v) => v, Err(e) => { return Err(e); } };
        Ok(InfoChar { name, healtfull, staminafull, healt: healtfull, stamina: staminafull })
    }
}

} // verus!
