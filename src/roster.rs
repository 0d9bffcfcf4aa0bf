//! The enemy roster as the server's settings files describe it.

use vstd::prelude::*;
use crate::config::{
    first_error, numbered, numbered_key, sdec, setting16, setting16_or_zero, setting16_or_zero_res, setting16_res,
    signed_decimal, ConfigError, ConfigFile,
};
use crate::packet::PacketCharInfo;
use crate::world::Ambients;

verus! {

/// The key `<i><field>` of an enemy's settings.
pub open spec fn enemy_key(i: nat, field: Seq<char>) -> Seq<char> {
    numbered(Seq::empty(), i, field)
}

/// Enemy `i` as the roster settings `m` and the enemy kind settings `k`
/// describe it, if all its settings are there: position, action, facing,
/// health, stamina, area and size from `m`; vision, step and damage of its
/// kind (`<numchar>vision` and so on) from `k`, 0 where `k` does not set them.
pub open spec fn enemy_spec(m: Map<Seq<char>, Seq<char>>, k: Map<Seq<char>, Seq<char>>, i: nat) -> Option<PacketCharInfo> {
    let num = setting16(m, enemy_key(i, seq!['_', 'n', 'u', 'm']));
    let x = setting16(m, enemy_key(i, seq!['_', 'x']));
    let y = setting16(m, enemy_key(i, seq!['_', 'y']));
    let a = setting16(m, enemy_key(i, seq!['_', 'a']));
    let d = setting16(m, enemy_key(i, seq!['_', 'd']));
    let healt = setting16(m, enemy_key(i, seq!['_', 'h', 'e', 'l', 't']));
    let stamina = setting16(m, enemy_key(i, seq!['_', 's', 't', 'a', 'm', 'i', 'n', 'a']));
    let idmap = setting16(m, enemy_key(i, seq!['_', 'i', 'd', 'm', 'a', 'p']));
    let w = setting16(m, enemy_key(i, seq!['_', 'w', 'i', 'd', 't', 'h']));
    let h = setting16(m, enemy_key(i, seq!['_', 'h', 'e', 'i', 'g', 'h', 't']));
    let vision = setting16_or_zero(k, sdec(num->Some_0 as int) + seq!['v', 'i', 's', 'i', 'o', 'n']);
    let step = setting16_or_zero(k, sdec(num->Some_0 as int) + seq!['s', 't', 'e', 'p']);
    let damage = setting16_or_zero(k, sdec(num->Some_0 as int) + seq!['d', 'a', 'm', 'a', 'g', 'e']);
    if num is Some && x is Some && y is Some && a is Some && d is Some && healt is Some && stamina is Some && idmap is Some && w is Some && h is Some && vision is Some && step is Some && damage is Some {
        Some(PacketCharInfo {
            numchar: num->Some_0,
            x: x->Some_0,
            y: y->Some_0,
            a: a->Some_0,
            d: d->Some_0,
            healt: healt->Some_0,
            stamina: stamina->Some_0,
            idmap: idmap->Some_0,
            w: w->Some_0,
            h: h->Some_0,
            vision: vision->Some_0,
            step: step->Some_0,
            damage: damage->Some_0,
            idchar: i as i16,
            exit: false,
            d2: 0,
            dhit: 0,
            totchar: 0,
            totenemies: 0,
            totlifeless: 0,
            listlifeless: [None, None, None, None, None],
        })
    } else {
        None
    }
}

/// The readings of enemy `i`'s settings, in the order they are read: its
/// kind first, then the rest of its record.
pub open spec fn enemy_results(m: Map<Seq<char>, Seq<char>>, k: Map<Seq<char>, Seq<char>>, i: nat) -> Seq<
    Result<i16, ConfigError>,
> {
    let num = setting16_res(m, enemy_key(i, seq!['_', 'n', 'u', 'm']));
    let nc = match num {
        Ok(v) => v,
        Err(_) => 0i16,
    };
    seq![
        num,
        setting16_res(m, enemy_key(i, seq!['_', 'x'])),
        setting16_res(m, enemy_key(i, seq!['_', 'y'])),
        setting16_res(m, enemy_key(i, seq!['_', 'a'])),
        setting16_res(m, enemy_key(i, seq!['_', 'd'])),
        setting16_or_zero_res(k, sdec(nc as int) + seq!['v', 'i', 's', 'i', 'o', 'n']),
        setting16_or_zero_res(k, sdec(nc as int) + seq!['s', 't', 'e', 'p']),
        setting16_or_zero_res(k, sdec(nc as int) + seq!['d', 'a', 'm', 'a', 'g', 'e']),
        setting16_res(m, enemy_key(i, seq!['_', 'h', 'e', 'l', 't'])),
        setting16_res(m, enemy_key(i, seq!['_', 's', 't', 'a', 'm', 'i', 'n', 'a'])),
        setting16_res(m, enemy_key(i, seq!['_', 'i', 'd', 'm', 'a', 'p'])),
        setting16_res(m, enemy_key(i, seq!['_', 'w', 'i', 'd', 't', 'h'])),
        setting16_res(m, enemy_key(i, seq!['_', 'h', 'e', 'i', 'g', 'h', 't'])),
    ]
}

fn enemy_field(config: &ConfigFile, i: u32, field: &Vec<char>) -> (r: Result<i16, ConfigError>)
    requires
        config.wf(),
    ensures
        r is Ok <==> setting16(config.settings(), enemy_key(i as nat, field@)) is Some,
        r is Ok ==> r->Ok_0 == setting16(config.settings(), enemy_key(i as nat, field@))->Some_0,
        r == setting16_res(config.settings(), enemy_key(i as nat, field@)),
{
    let empty: Vec<char> = Vec::new();
    assert(empty@ =~= Seq::<char>::empty());
    config.require_i16(&numbered_key(&empty, i, field))
}

fn kind_field(kinds: &ConfigFile, num: &Vec<char>, field: Vec<char>) -> (r: Result<i16, ConfigError>)
    requires
        kinds.wf(),
    ensures
        r is Ok <==> setting16_or_zero(kinds.settings(), num@ + field@) is Some,
        r is Ok ==> r->Ok_0 == setting16_or_zero(kinds.settings(), num@ + field@)->Some_0,
        r == setting16_or_zero_res(kinds.settings(), num@ + field@),
{
    let mut key = num.clone();
    let mut f = field;
    key.append(&mut f);
    kinds.i16_or_zero(&key)
}

fn enemy_at(config: &ConfigFile, kinds: &ConfigFile, i: u32) -> (r: Result<PacketCharInfo, ConfigError>)
    requires
        config.wf(),
        kinds.wf(),
        i <= i16::MAX,
    ensures
        r is Ok <==> enemy_spec(config.settings(), kinds.settings(), i as nat) is Some,
        r is Ok ==> Some(r->Ok_0) == enemy_spec(config.settings(), kinds.settings(), i as nat),
        r is Err ==> first_error(enemy_results(config.settings(), kinds.settings(), i as nat), r->Err_0),
{
    let ghost rs = enemy_results(config.settings(), kinds.settings(), i as nat);
    let kn = vec!['_', 'n', 'u', 'm'];
    assert(kn@ =~= seq!['_', 'n', 'u', 'm']);
    let numchar = match enemy_field(config, i, &kn) {
        Ok(v) => v,
        Err(e) => {
            assert(rs[0] == Err::<i16, ConfigError>(e));
            return Err(e);
        },
    };
    let num = signed_decimal(numchar);
    let key = vec!['_', 'x'];
    assert(key@ =~= seq!['_', 'x']);
    let x = match enemy_field(config, i, &key) {
        Ok(v) => v,
        Err(e) => {
            assert(rs[1] == Err::<i16, ConfigError>(e));
            assert(forall|k: int| 0 <= k < 1 ==> (#[trigger] rs[k]) is Ok);
            return Err(e);
        },
    };
    let key = vec!['_', 'y'];
    assert(key@ =~= seq!['_', 'y']);
    let y = match enemy_field(config, i, &key) {
        Ok(v) => v,
        Err(e) => {
            assert(rs[2] == Err::<i16, ConfigError>(e));
            assert(forall|k: int| 0 <= k < 2 ==> (#[trigger] rs[k]) is Ok);
            return Err(e);
        },
    };
    let key = vec!['_', 'a'];
    assert(key@ =~= seq!['_', 'a']);
    let a = match enemy_field(config, i, &key) {
        Ok(v) => v,
        Err(e) => {
            assert(rs[3] == Err::<i16, ConfigError>(e));
            assert(forall|k: int| 0 <= k < 3 ==> (#[trigger] rs[k]) is Ok);
            return Err(e);
        },
    };
    let key = vec!['_', 'd'];
    assert(key@ =~= seq!['_', 'd']);
    let d = match enemy_field(config, i, &key) {
        Ok(v) => v,
        Err(e) => {
            assert(rs[4] == Err::<i16, ConfigError>(e));
            assert(forall|k: int| 0 <= k < 4 ==> (#[trigger] rs[k]) is Ok);
            return Err(e);
        },
    };
    let key = vec!['v', 'i', 's', 'i', 'o', 'n'];
    assert(key@ =~= seq!['v', 'i', 's', 'i', 'o', 'n']);
    let vision = match kind_field(kinds, &num, key) {
        Ok(v) => v,
        Err(e) => {
            assert(rs[5] == Err::<i16, ConfigError>(e));
            assert(forall|k: int| 0 <= k < 5 ==> (#[trigger] rs[k]) is Ok);
            return Err(e);
        },
    };
    let key = vec!['s', 't', 'e', 'p'];
    assert(key@ =~= seq!['s', 't', 'e', 'p']);
    let step = match kind_field(kinds, &num, key) {
        Ok(v) => v,
        Err(e) => {
            assert(rs[6] == Err::<i16, ConfigError>(e));
            assert(forall|k: int| 0 <= k < 6 ==> (#[trigger] rs[k]) is Ok);
            return Err(e);
        },
    };
    let key = vec!['d', 'a', 'm', 'a', 'g', 'e'];
    assert(key@ =~= seq!['d', 'a', 'm', 'a', 'g', 'e']);
    let damage = match kind_field(kinds, &num, key) {
        Ok(v) => v,
        Err(e) => {
            assert(rs[7] == Err::<i16, ConfigError>(e));
            assert(forall|k: int| 0 <= k < 7 ==> (#[trigger] rs[k]) is Ok);
            return Err(e);
        },
    };
    let key = vec!['_', 'h', 'e', 'l', 't'];
    assert(key@ =~= seq!['_', 'h', 'e', 'l', 't']);
    let healt = match enemy_field(config, i, &key) {
        Ok(v) => v,
        Err(e) => {
            assert(rs[8] == Err::<i16, ConfigError>(e));
            assert(forall|k: int| 0 <= k < 8 ==> (#[trigger] rs[k]) is Ok);
            return Err(e);
        },
    };
    let key = vec!['_', 's', 't', 'a', 'm', 'i', 'n', 'a'];
    assert(key@ =~= seq!['_', 's', 't', 'a', 'm', 'i', 'n', 'a']);
    let stamina = match enemy_field(config, i, &key) {
        Ok(v) => v,
        Err(e) => {
            assert(rs[9] == Err::<i16, ConfigError>(e));
            assert(forall|k: int| 0 <= k < 9 ==> (#[trigger] rs[k]) is Ok);
            return Err(e);
        },
    };
    let key = vec!['_', 'i', 'd', 'm', 'a', 'p'];
    assert(key@ =~= seq!['_', 'i', 'd', 'm', 'a', 'p']);
    let idmap = match enemy_field(config, i, &key) {
        Ok(v) => v,
        Err(e) => {
            assert(rs[10] == Err::<i16, ConfigError>(e));
            assert(forall|k: int| 0 <= k < 10 ==> (#[trigger] rs[k]) is Ok);
            return Err(e);
        },
    };
    let key = vec!['_', 'w', 'i', 'd', 't', 'h'];
    assert(key@ =~= seq!['_', 'w', 'i', 'd', 't', 'h']);
    let w = match enemy_field(config, i, &key) {
        Ok(v) => v,
        Err(e) => {
            assert(rs[11] == Err::<i16, ConfigError>(e));
            assert(forall|k: int| 0 <= k < 11 ==> (#[trigger] rs[k]) is Ok);
            return Err(e);
        },
    };
    let key = vec!['_', 'h', 'e', 'i', 'g', 'h', 't'];
    assert(key@ =~= seq!['_', 'h', 'e', 'i', 'g', 'h', 't']);
    let h = match enemy_field(config, i, &key) {
        Ok(v) => v,
        Err(e) => {
            assert(rs[12] == Err::<i16, ConfigError>(e));
            assert(forall|k: int| 0 <= k < 12 ==> (#[trigger] rs[k]) is Ok);
            return Err(e);
        },
    };
    Ok(PacketCharInfo {
        x,
        y,
        w,
        h,
        a,
        d,
        d2: 0,
        dhit: 0,
        numchar,
        idchar: i as i16,
        totchar: 0,
        totenemies: 0,
        exit: false,
        healt,
        stamina,
        damage,
        idmap,
        totlifeless: 0,
        step,
        vision,
        listlifeless: [None, None, None, None, None],
    })
}

impl Ambients {
    /// The enemy roster that the settings describe: `qt_inimigos` enemies,
    /// numbered from 1, enemy `i` as `enemy_spec` gives it, with id `i`.
    /// An error where one of their settings is missing or no `i16`.
    pub fn load_enemies(config: &ConfigFile, kinds: &ConfigFile) -> (r: Result<Vec<PacketCharInfo>, ConfigError>)
        requires
            config.wf(),
            kinds.wf(),
        ensures
            ({
                let m = config.settings();
                let n = setting16(m, seq!['q', 't', '_', 'i', 'n', 'i', 'm', 'i', 'g', 'o', 's']);
                r is Ok <==> (n is Some && forall|i: int| 1 <= i <= n->Some_0 ==> (#[trigger] enemy_spec(m, kinds.settings(), i as nat)) is Some)
            }),
            r is Ok ==> {
                let m = config.settings();
                let n = setting16(m, seq!['q', 't', '_', 'i', 'n', 'i', 'm', 'i', 'g', 'o', 's'])->Some_0;
                &&& r->Ok_0@.len() == if n < 0 { 0 } else { n as int }
                &&& forall|j: int| 0 <= j < r->Ok_0@.len() ==> Some(#[trigger] r->Ok_0@[j]) == enemy_spec(m, kinds.settings(), (j + 1) as nat)
            },
            r is Err ==> {
                let m = config.settings();
                let qk = seq!['q', 't', '_', 'i', 'n', 'i', 'm', 'i', 'g', 'o', 's'];
                ||| setting16_res(m, qk) == Err::<i16, ConfigError>(r->Err_0)
                ||| exists|i: int| #![trigger enemy_results(m, kinds.settings(), i as nat)] {
                    &&& 1 <= i <= setting16(m, qk)->Some_0
                    &&& forall|i2: int| 1 <= i2 < i ==> (#[trigger] enemy_spec(m, kinds.settings(), i2 as nat)) is Some
                    &&& first_error(enemy_results(m, kinds.settings(), i as nat), r->Err_0)
                }
            },
    {
        let key = vec!['q', 't', '_', 'i', 'n', 'i', 'm', 'i', 'g', 'o', 's'];
        assert(key@ =~= seq!['q', 't', '_', 'i', 'n', 'i', 'm', 'i', 'g', 'o', 's']);
        let qt = match config.require_i16(&key) {
            Ok(q) => q,
            Err(e) => {
                assert(setting16_res(config.settings(), key@) == Err::<i16, ConfigError>(e));
                return Err(e);
            },
        };
        let ghost m = config.settings();
        assert(setting16(m, seq!['q', 't', '_', 'i', 'n', 'i', 'm', 'i', 'g', 'o', 's']) == Some(qt));
        let mut enemies: Vec<PacketCharInfo> = Vec::new();
        if qt < 1 {
            return Ok(enemies);
        }
        let n = qt as u32;
        let mut i: u32 = 1;
        while i <= n
            invariant
                config.wf(),
                kinds.wf(),
                m == config.settings(),
                setting16(m, seq!['q', 't', '_', 'i', 'n', 'i', 'm', 'i', 'g', 'o', 's']) == Some(qt),
                n == qt,
                1 <= i <= n + 1,
                n <= i16::MAX,
                enemies@.len() == i - 1,
                forall|j: int| 0 <= j < enemies@.len() ==> Some(#[trigger] enemies@[j]) == enemy_spec(m, kinds.settings(), (j + 1) as nat),
            decreases n + 1 - i,
        {
            match enemy_at(config, kinds, i) {
                Ok(e) => {
                    enemies.push(e);
                },
                Err(e) => {
                    proof {
                        let j = i as int;
                        assert(1 <= j <= qt);
                        assert(enemy_spec(m, kinds.settings(), j as nat) is None);
                        assert(!(forall|j2: int| 1 <= j2 <= qt ==> (#[trigger] enemy_spec(m, kinds.settings(), j2 as nat)) is Some));
                        assert forall|i2: int| 1 <= i2 < j implies (#[trigger] enemy_spec(m, kinds.settings(), i2 as nat)) is Some by {
                            assert(Some(enemies@[i2 - 1]) == enemy_spec(m, kinds.settings(), i2 as nat));
                        }
                        assert(first_error(enemy_results(m, kinds.settings(), j as nat), e));
                    }
                    return Err(e);
                },
            }
            i = i + 1;
        }
        assert forall|j: int| 1 <= j <= qt implies (#[trigger] enemy_spec(m, kinds.settings(), j as nat)) is Some by {
            assert(Some(enemies@[j - 1]) == enemy_spec(m, kinds.settings(), j as nat));
        }
        Ok(enemies)
    }
}

} // verus!
